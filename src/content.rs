use vstd::prelude::*;

verus! {

/// Index of the last `.` in `s`, or -1 when there is none.
pub open spec fn last_dot(s: Seq<char>) -> int
    decreases s.len(),
{
    if s.len() == 0 {
        -1
    } else if s.last() == '.' {
        s.len() - 1
    } else {
        last_dot(s.drop_last())
    }
}

/// The extension of a file name: what follows its last `.`, unless that dot
/// is the first character (a hidden file) or there is none.
pub open spec fn extension_of(name: Seq<char>) -> Option<Seq<char>> {
    let k = last_dot(name);
    if k <= 0 {
        None
    } else {
        Some(name.subrange(k + 1, name.len() as int))
    }
}

/// The MIME type served for a file with extension `ext`.
pub open spec fn mime_of_extension(ext: Option<Seq<char>>) -> Seq<char> {
    match ext {
        Some(e) => if e == "html"@ || e == "htm"@ {
            "text/html"@
        } else if e == "css"@ {
            "text/css"@
        } else if e == "js"@ {
            "application/javascript"@
        } else if e == "json"@ {
            "application/json"@
        } else if e == "png"@ {
            "image/png"@
        } else if e == "jpg"@ || e == "jpeg"@ {
            "image/jpeg"@
        } else if e == "gif"@ {
            "image/gif"@
        } else if e == "svg"@ {
            "image/svg+xml"@
        } else if e == "pdf"@ {
            "application/pdf"@
        } else if e == "txt"@ || e == "md"@ {
            "text/plain"@
        } else {
            "application/octet-stream"@
        },
        None => "application/octet-stream"@,
    }
}

pub open spec fn content_type_of(name: Seq<char>) -> Seq<char> {
    mime_of_extension(extension_of(name))
}

/// Whether the characters of `s` from `from` on are exactly `lit`.
fn tail_is(s: &str, from: usize, lit: &str) -> (r: bool)
    requires
        from <= s@.len(),
    ensures
        r == (s@.subrange(from as int, s@.len() as int) == lit@),
{
    let n = s.unicode_len();
    let m = lit.unicode_len();
    let ghost t = s@.subrange(from as int, n as int);
    if n - from != m {
        return false;
    }
    let mut i: usize = 0;
    while i < m
        invariant
            n == s@.len(),
            m == lit@.len(),
            n - from == m,
            t == s@.subrange(from as int, n as int),
            i <= m,
            forall|j: int| 0 <= j < i ==> t[j] == lit@[j],
        decreases m - i,
    {
        if s.get_char(from + i) != lit.get_char(i) {
            assert(t[i as int] != lit@[i as int]);
            return false;
        }
        i = i + 1;
    }
    assert(t =~= lit@);
    true
}

/// Where the extension of `name` starts, if it has one.
fn extension_start(name: &str) -> (r: Option<usize>)
    ensures
        r is Some <==> last_dot(name@) > 0,
        r matches Some(s) ==> s == last_dot(name@) + 1 && s <= name@.len(),
{
    let mut i = name.unicode_len();
    assert(name@.subrange(0, i as int) =~= name@);
    while i > 0
        invariant
            i <= name@.len(),
            last_dot(name@) == last_dot(name@.subrange(0, i as int)),
        decreases i,
    {
        let ghost p = name@.subrange(0, i as int);
        assert(p.drop_last() =~= name@.subrange(0, i - 1));
        if name.get_char(i - 1) == '.' {
            if i == 1 {
                return None;
            }
            return Some(i);
        }
        i = i - 1;
    }
    None
}

/// The MIME type of a file, from the extension of its name.
pub fn determine_content_type(name: &str) -> (r: &'static str)
    ensures
        r@ == content_type_of(name@),
{
    let ext_start = match extension_start(name) {
        Some(s) => s,
        None => {
            return "application/octet-stream";
        },
    };
    if tail_is(name, ext_start, "html") || tail_is(name, ext_start, "htm") {
        "text/html"
    } else if tail_is(name, ext_start, "css") {
        "text/css"
    } else if tail_is(name, ext_start, "js") {
        "application/javascript"
    } else if tail_is(name, ext_start, "json") {
        "application/json"
    } else if tail_is(name, ext_start, "png") {
        "image/png"
    } else if tail_is(name, ext_start, "jpg") || tail_is(name, ext_start, "jpeg") {
        "image/jpeg"
    } else if tail_is(name, ext_start, "gif") {
        "image/gif"
    } else if tail_is(name, ext_start, "svg") {
        "image/svg+xml"
    } else if tail_is(name, ext_start, "pdf") {
        "application/pdf"
    } else if tail_is(name, ext_start, "txt") || tail_is(name, ext_start, "md") {
        "text/plain"
    } else {
        "application/octet-stream"
    }
}

} // verus!
