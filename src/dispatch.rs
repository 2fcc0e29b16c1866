use vstd::prelude::*;

verus! {

/// The container formats that can be introspected.
#[derive(Clone, Copy, Debug, PartialEq, Eq, Structural)]
pub enum ContainerFormat {
    Zip,
    Rar,
}

/// Why an archive could not be introspected.
#[derive(Debug)]
pub enum IntrospectionError {
    /// The container could not be opened at all.
    Unreadable(String),
    /// The file is of no container format that is supported.
    UnsupportedFormat,
}

/// The container format that a file extension declares (exact, case-sensitive).
pub fn container_format(ext: &str) -> (r: Result<ContainerFormat, IntrospectionError>)
    ensures
        ext@ == "zip"@ <==> r matches Ok(ContainerFormat::Zip),
        ext@ == "rar"@ <==> r matches Ok(ContainerFormat::Rar),
        ext@ != "zip"@ && ext@ != "rar"@ <==> r matches Err(IntrospectionError::UnsupportedFormat),
{
    let e = String::from_str(ext);
    let zip = String::from_str("zip");
    let rar = String::from_str("rar");
    proof {
        reveal_strlit("zip");
        reveal_strlit("rar");
        assert("zip"@ != "rar"@) by {
            assert("zip"@[0] != "rar"@[0]);
        }
    }
    if e == zip {
        Ok(ContainerFormat::Zip)
    } else if e == rar {
        Ok(ContainerFormat::Rar)
    } else {
        Err(IntrospectionError::UnsupportedFormat)
    }
}

/// Index of the last occurrence of `c` in `s`, or -1.
pub open spec fn last_index_of(s: Seq<char>, c: char) -> int
    decreases s.len(),
{
    if s.len() == 0 {
        -1
    } else if s.last() == c {
        s.len() - 1
    } else {
        last_index_of(s.drop_last(), c)
    }
}

proof fn lemma_last_index_of(s: Seq<char>, c: char)
    ensures
        -1 <= last_index_of(s, c) < s.len(),
        last_index_of(s, c) >= 0 ==> s[last_index_of(s, c)] == c,
        forall|j: int| last_index_of(s, c) < j < s.len() ==> s[j] != c,
    decreases s.len(),
{
    if s.len() > 0 && s.last() != c {
        lemma_last_index_of(s.drop_last(), c);
        assert forall|j: int| last_index_of(s, c) < j < s.len() implies s[j] != c by {
            if j < s.len() - 1 {
                assert(s[j] == s.drop_last()[j]);
            }
        }
    }
}

/// The last component of a `/`-separated name.
pub open spec fn file_name_of(s: Seq<char>) -> Seq<char> {
    s.subrange(last_index_of(s, '/') + 1, s.len() as int)
}

/// The extension of a name: what follows the last dot of its last component,
/// when that dot is not the component's first character; else empty.
pub open spec fn extension_text(s: Seq<char>) -> Seq<char> {
    let f = file_name_of(s);
    let k = last_index_of(f, '.');
    if k <= 0 { Seq::empty() } else { f.subrange(k + 1, f.len() as int) }
}

fn last_index(s: &str, n: usize, c: char) -> (r: Option<usize>)
    requires
        n <= s@.len(),
    ensures
        r matches Some(k) ==> k < n && s@[k as int] == c && forall|j: int| k < j < n ==> s@[j] != c,
        r.is_none() ==> forall|j: int| 0 <= j < n ==> s@[j] != c,
{
    let mut i: usize = n;
    while i > 0
        invariant
            i <= n <= s@.len(),
            forall|j: int| i <= j < n ==> s@[j] != c,
        decreases i,
    {
        if s.get_char(i - 1) == c {
            return Some(i - 1);
        }
        i = i - 1;
    }
    None
}

/// The extension of an entry name, by which its type is looked up.
pub fn extension_of(name: &str) -> (r: String)
    ensures
        r@ == extension_text(name@),
{
    let n = name.unicode_len();
    proof {
        lemma_last_index_of(name@, '/');
    }
    let start: usize = match last_index(name, n, '/') {
        Some(k) => k + 1,
        None => 0,
    };
    assert(start as int == last_index_of(name@, '/') + 1);
    let f = name.substring_char(start, n);
    let fl = f.unicode_len();
    proof {
        lemma_last_index_of(f@, '.');
    }
    match last_index(f, fl, '.') {
        Some(k) => {
            assert(k as int == last_index_of(f@, '.'));
            if k == 0 {
                String::new()
            } else {
                String::from_str(f.substring_char(k + 1, fl))
            }
        },
        None => {
            assert(last_index_of(f@, '.') == -1);
            String::new()
        },
    }
}

} // verus!
