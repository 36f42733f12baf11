use vstd::prelude::*;
use crate::text::{decimal, lemma_decimal_digits, lemma_number_text_decimal};

verus! {

/// An inclusive byte interval `start..=end` of a file, with `start <= end < size`.
#[derive(Clone, Copy, Debug, PartialEq, Eq, Structural)]
pub struct ByteRange {
    pub start: u64,
    pub end: u64,
}

/// Why a `Range` header was not turned into a `ByteRange`.
#[derive(Clone, Copy, Debug, PartialEq, Eq, Structural)]
pub enum RangeError {
    /// The value does not start with `bytes=`.
    UnsupportedUnit,
    /// The part after `bytes=` is not `<start>-<end>` with optional decimal numbers.
    Malformed,
    /// The first position lies after the last one.
    Invalid { start: u64, end: u64 },
    /// The first position is not inside the file.
    Unsatisfiable { start: u64, size: u64 },
}

impl ByteRange {
    pub open spec fn wf(self, size: nat) -> bool {
        self.start <= self.end && self.end < size
    }

    pub open spec fn spec_len(self) -> nat {
        (self.end - self.start + 1) as nat
    }

    /// Number of bytes in the interval.
    pub fn len(&self) -> (r: u64)
        requires
            self.start <= self.end,
            self.end < u64::MAX,
        ensures
            r == self.spec_len(),
    {
        self.end - self.start + 1
    }
}

impl RangeError {
    /// The HTTP status that answers this error: 416 when nothing of the file
    /// can be sent, 400 otherwise.
    pub fn status(&self) -> (r: u16)
        ensures
            r == (if self is Unsatisfiable { 416u16 } else { 400u16 }),
    {
        match self {
            RangeError::Unsatisfiable { .. } => 416,
            _ => 400,
        }
    }
}

pub open spec fn is_digit(c: char) -> bool {
    '0' as u32 <= c as u32 && c as u32 <= '9' as u32
}

pub open spec fn digit_value(c: char) -> nat {
    (c as u32 - '0' as u32) as nat
}

/// The number written by the decimal digits `s`, most significant first.
pub open spec fn digits_value(s: Seq<char>) -> nat
    decreases s.len(),
{
    if s.len() == 0 {
        0
    } else {
        digits_value(s.drop_last()) * 10 + digit_value(s.last())
    }
}

pub open spec fn all_digits(s: Seq<char>) -> bool {
    forall|i: int| 0 <= i < s.len() ==> is_digit(#[trigger] s[i])
}

/// The text of a `u64` as integer parsing reads it: an optional `+`, then one
/// or more decimal digits whose value fits in 64 bits.
pub open spec fn number_text(s: Seq<char>) -> Option<u64> {
    let d = if s.len() > 0 && s[0] == '+' {
        s.drop_first()
    } else {
        s
    };
    if d.len() > 0 && all_digits(d) && digits_value(d) <= u64::MAX {
        Some(digits_value(d) as u64)
    } else {
        None
    }
}

pub open spec fn unit_prefix() -> Seq<char> {
    seq!['b', 'y', 't', 'e', 's', '=']
}

/// `s` holds exactly one `-`, at index `k`.
pub open spec fn single_dash_at(s: Seq<char>, k: int) -> bool {
    0 <= k < s.len() && s[k] == '-' && forall|i: int|
        0 <= i < s.len() && i != k ==> #[trigger] s[i] != '-'
}

/// What a `Range` header value `h` asks of a file of `size` bytes.
///
/// An empty first position means 0; an empty last position means the last
/// byte of the file, so with it only a first position past the file can fail
/// (not satisfiable). With both positions given, a first position after the
/// last is an invalid range, and otherwise a first position past the file is
/// not satisfiable. A last position past the end of the file is cut down to
/// the last byte.
pub open spec fn range_outcome(h: Seq<char>, size: nat) -> Result<ByteRange, RangeError> {
    if !(h.len() >= 6 && h.subrange(0, 6) == unit_prefix()) {
        Err(RangeError::UnsupportedUnit)
    } else {
        let rest = h.subrange(6, h.len() as int);
        if !(exists|k: int| single_dash_at(rest, k)) {
            Err(RangeError::Malformed)
        } else {
            let k = choose|k: int| single_dash_at(rest, k);
            let a = rest.subrange(0, k);
            let b = rest.subrange(k + 1, rest.len() as int);
            if a.len() > 0 && number_text(a) is None {
                Err(RangeError::Malformed)
            } else if b.len() > 0 && number_text(b) is None {
                Err(RangeError::Malformed)
            } else {
                let start: u64 = if a.len() == 0 {
                    0
                } else {
                    number_text(a)->0
                };
                if b.len() == 0 {
                    if start >= size {
                        Err(RangeError::Unsatisfiable { start, size: size as u64 })
                    } else {
                        Ok(ByteRange { start, end: (size - 1) as u64 })
                    }
                } else {
                    let end: u64 = number_text(b)->0;
                    if start > end {
                        Err(RangeError::Invalid { start, end })
                    } else if start >= size {
                        Err(RangeError::Unsatisfiable { start, size: size as u64 })
                    } else {
                        Ok(
                            ByteRange {
                                start,
                                end: if end < size {
                                    end
                                } else {
                                    (size - 1) as u64
                                },
                            },
                        )
                    }
                }
            }
        }
    }
}

proof fn lemma_prefix_value_le(s: Seq<char>, i: int)
    requires
        0 <= i <= s.len(),
    ensures
        digits_value(s.subrange(0, i)) <= digits_value(s),
    decreases s.len() - i,
{
    if i < s.len() {
        lemma_prefix_value_le(s, i + 1);
        assert(s.subrange(0, i + 1).drop_last() =~= s.subrange(0, i));
    } else {
        assert(s.subrange(0, i) =~= s);
    }
}

/// Reads the decimal number in the characters `lo..hi` of `s`.
fn parse_number(s: &str, lo: usize, hi: usize) -> (r: Option<u64>)
    requires
        lo <= hi <= s@.len(),
    ensures
        r == number_text(s@.subrange(lo as int, hi as int)),
{
    let ghost t = s@.subrange(lo as int, hi as int);
    let mut from = lo;
    if lo < hi && s.get_char(lo) == '+' {
        from = lo + 1;
    }
    let ghost d = s@.subrange(from as int, hi as int);
    assert(d =~= (if t.len() > 0 && t[0] == '+' {
        t.drop_first()
    } else {
        t
    }));
    if from == hi {
        return None;
    }
    let mut value: u64 = 0;
    let mut i = from;
    while i < hi
        invariant
            from <= i <= hi <= s@.len(),
            d == s@.subrange(from as int, hi as int),
            t == s@.subrange(lo as int, hi as int),
            d == (if t.len() > 0 && t[0] == '+' {
                t.drop_first()
            } else {
                t
            }),
            all_digits(s@.subrange(from as int, i as int)),
            value == digits_value(s@.subrange(from as int, i as int)),
        decreases hi - i,
    {
        let c = s.get_char(i);
        let ghost p = s@.subrange(from as int, i as int);
        let ghost q = s@.subrange(from as int, i as int + 1);
        assert(q.drop_last() =~= p);
        if !('0' <= c && c <= '9') {
            assert(d[i - from] == c);
            assert(!is_digit(d[i - from]));
            assert(!all_digits(d));
            return None;
        }
        let dv = (c as u32 - '0' as u32) as u64;
        if value > (u64::MAX - dv) / 10 {
            proof {
                assert(digits_value(q) > u64::MAX) by (nonlinear_arith)
                    requires
                        value > (u64::MAX - dv) / 10,
                        digits_value(q) == value * 10 + dv,
                        dv <= 9,
                ;
                assert(d.subrange(0, i + 1 - from) =~= q);
                lemma_prefix_value_le(d, i + 1 - from);
                assert(digits_value(d) > u64::MAX);
            }
            return None;
        }
        assert(value * 10 + dv <= u64::MAX) by (nonlinear_arith)
            requires
                value <= (u64::MAX - dv) / 10,
                dv <= 9,
        ;
        value = value * 10 + dv;
        i = i + 1;
        assert(all_digits(q)) by {
            assert forall|j: int| 0 <= j < q.len() implies is_digit(#[trigger] q[j]) by {
                if j < p.len() {
                    assert(q[j] == p[j]);
                }
            }
        }
    }
    assert(s@.subrange(from as int, i as int) =~= d);
    Some(value)
}

/// Parses a `Range` header value against a file of `file_size` bytes.
pub fn parse_range(header: &str, file_size: u64) -> (r: Result<ByteRange, RangeError>)
    ensures
        r == range_outcome(header@, file_size as nat),
        r matches Ok(br) ==> br.wf(file_size as nat),
{
    let n = header.unicode_len();
    let ghost h = header@;
    if n < 6 || header.get_char(0) != 'b' || header.get_char(1) != 'y' || header.get_char(2)
        != 't' || header.get_char(3) != 'e' || header.get_char(4) != 's' || header.get_char(5)
        != '=' {
        assert(!(h.len() >= 6 && h.subrange(0, 6) == unit_prefix())) by {
            if h.len() >= 6 && h.subrange(0, 6) == unit_prefix() {
                assert(h.subrange(0, 6)[0] == h[0]);
                assert(h.subrange(0, 6)[1] == h[1]);
                assert(h.subrange(0, 6)[2] == h[2]);
                assert(h.subrange(0, 6)[3] == h[3]);
                assert(h.subrange(0, 6)[4] == h[4]);
                assert(h.subrange(0, 6)[5] == h[5]);
            }
        }
        return Err(RangeError::UnsupportedUnit);
    }
    assert(h.subrange(0, 6) =~= unit_prefix());
    let ghost rest = h.subrange(6, h.len() as int);
    let mut dashes: usize = 0;
    let mut dash: usize = 6;
    let mut i: usize = 6;
    while i < n
        invariant
            6 <= i <= n,
            n == h.len(),
            h == header@,
            rest == h.subrange(6, h.len() as int),
            dashes <= i - 6,
            dashes == 0 ==> forall|j: int| 6 <= j < i ==> h[j] != '-',
            dashes >= 1 ==> 6 <= dash < i && h[dash as int] == '-',
            dashes == 1 ==> forall|j: int| 6 <= j < i && j != dash ==> h[j] != '-',
            dashes >= 2 ==> exists|j: int| 6 <= j < i && j != dash && h[j] == '-',
        decreases n - i,
    {
        if header.get_char(i) == '-' {
            if dashes == 0 {
                dash = i;
            }
            dashes = dashes + 1;
        }
        i = i + 1;
    }
    if dashes != 1 {
        assert(!(exists|k: int| single_dash_at(rest, k))) by {
            if exists|k: int| single_dash_at(rest, k) {
                let k = choose|k: int| single_dash_at(rest, k);
                assert(rest[k] == h[k + 6]);
                if dashes >= 2 {
                    let j = choose|j: int| 6 <= j < n && j != dash && h[j] == '-';
                    assert(rest[j - 6] == h[j]);
                    assert(rest[dash - 6] == h[dash as int]);
                }
            }
        }
        return Err(RangeError::Malformed);
    }
    let ghost k = dash - 6;
    assert(single_dash_at(rest, k)) by {
        assert forall|j: int| 0 <= j < rest.len() && j != k implies #[trigger] rest[j] != '-' by {
            assert(rest[j] == h[j + 6]);
        }
    }
    assert forall|k2: int| single_dash_at(rest, k2) implies k2 == k by {
        assert(rest[k] == h[dash as int]);
    }
    assert(h.subrange(6, dash as int) =~= rest.subrange(0, k));
    assert(h.subrange(dash + 1, n as int) =~= rest.subrange(k + 1, rest.len() as int));
    let start = if dash == 6 {
        0
    } else {
        match parse_number(header, 6, dash) {
            Some(v) => v,
            None => {
                return Err(RangeError::Malformed);
            },
        }
    };
    let parsed_end = if dash + 1 == n {
        None
    } else {
        match parse_number(header, dash + 1, n) {
            Some(v) => Some(v),
            None => {
                return Err(RangeError::Malformed);
            },
        }
    };
    let end = match parsed_end {
        Some(v) => v,
        None => {
            if start >= file_size {
                return Err(RangeError::Unsatisfiable { start, size: file_size });
            }
            return Ok(ByteRange { start, end: file_size - 1 });
        },
    };
    if start > end {
        return Err(RangeError::Invalid { start, end });
    }
    if start >= file_size {
        return Err(RangeError::Unsatisfiable { start, size: file_size });
    }
    let last = if end < file_size {
        end
    } else {
        file_size - 1
    };
    Ok(ByteRange { start, end: last })
}

proof fn lemma_number_one_digit(c: char)
    requires
        is_digit(c),
    ensures
        number_text(seq![c]) == Some(digit_value(c) as u64),
{
    let s = seq![c];
    assert(s.drop_last() =~= Seq::<char>::empty());
    assert(digits_value(s.drop_last()) == 0);
}

/// Asking for `bytes=0-` of a non-empty file gets the whole file: every byte
/// from the first to the last, as many as the file holds.
pub proof fn lemma_open_range_from_zero(size: u64)
    requires
        size > 0,
    ensures
        range_outcome(seq!['b', 'y', 't', 'e', 's', '=', '0', '-'], size as nat) == Ok::<
            ByteRange,
            RangeError,
        >(ByteRange { start: 0, end: (size - 1) as u64 }),
        (ByteRange { start: 0, end: (size - 1) as u64 }).spec_len() == size,
{
    let h = seq!['b', 'y', 't', 'e', 's', '=', '0', '-'];
    assert(h.subrange(0, 6) =~= unit_prefix());
    let rest = h.subrange(6, h.len() as int);
    assert(rest =~= seq!['0', '-']);
    assert(single_dash_at(rest, 1));
    assert forall|k: int| single_dash_at(rest, k) implies k == 1 by {
        assert(rest[0] == '0');
    }
    assert(rest.subrange(0, 1) =~= seq!['0']);
    assert(rest.subrange(2, 2) =~= Seq::<char>::empty());
    lemma_number_one_digit('0');
}

/// Asking for `bytes={S}-` of a file of `S` bytes is not satisfiable: the
/// first position lies at or past the end of the file.
pub proof fn lemma_open_range_from_size(size: u64)
    ensures
        range_outcome(unit_prefix() + decimal(size as nat) + seq!['-'], size as nat) == Err::<
            ByteRange,
            RangeError,
        >(RangeError::Unsatisfiable { start: size, size }),
{
    let d = decimal(size as nat);
    let h = unit_prefix() + d + seq!['-'];
    lemma_decimal_digits(size as nat);
    lemma_number_text_decimal(size);
    assert(h.subrange(0, 6) =~= unit_prefix());
    let rest = h.subrange(6, h.len() as int);
    assert(rest =~= d + seq!['-']);
    let k = d.len() as int;
    assert forall|i: int| 0 <= i < rest.len() && i != k implies #[trigger] rest[i] != '-' by {
        assert(rest[i] == d[i]);
        assert(is_digit(d[i]));
    }
    assert(single_dash_at(rest, k));
    assert forall|k2: int| single_dash_at(rest, k2) implies k2 == k by {
        if k2 != k {
            assert(rest[k] == '-');
        }
    }
    assert(rest.subrange(0, k) =~= d);
    assert(rest.subrange(k + 1, rest.len() as int) =~= Seq::<char>::empty());
}

/// Asking for `bytes=10-5` is an invalid range, whatever the file's size.
pub proof fn lemma_reversed_range(size: u64)
    ensures
        range_outcome(seq!['b', 'y', 't', 'e', 's', '=', '1', '0', '-', '5'], size as nat)
            == Err::<ByteRange, RangeError>(RangeError::Invalid { start: 10, end: 5 }),
{
    let h = seq!['b', 'y', 't', 'e', 's', '=', '1', '0', '-', '5'];
    assert(h.subrange(0, 6) =~= unit_prefix());
    let rest = h.subrange(6, h.len() as int);
    assert(rest =~= seq!['1', '0', '-', '5']);
    assert(single_dash_at(rest, 2));
    assert forall|k: int| single_dash_at(rest, k) implies k == 2 by {
        assert(rest[2] == '-');
    }
    let a = rest.subrange(0, 2);
    assert(a =~= seq!['1', '0']);
    assert(a.drop_last() =~= seq!['1']);
    lemma_number_one_digit('1');
    assert(seq!['1'].drop_last() =~= Seq::<char>::empty());
    assert(digits_value(seq!['1']) == 1);
    assert(digits_value(a) == 10);
    assert(all_digits(a)) by {
        assert forall|i: int| 0 <= i < a.len() implies is_digit(#[trigger] a[i]) by {}
    }
    assert(rest.subrange(3, 4) =~= seq!['5']);
    lemma_number_one_digit('5');
}

} // verus!
