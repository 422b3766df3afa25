//! Namespaced identifiers such as `minecraft:stone`.
//!
//! An identifier is a namespace and a path joined by `:`. The namespace may
//! hold lower-case ASCII letters, digits, `_`, `-` and `.`; the path may also
//! hold `/`. Text without a `:` names a path in the `minecraft` namespace, and
//! an empty namespace stands for `minecraft` too.

use vstd::prelude::*;

verus! {

/// Whether `c` may appear in a namespace.
pub open spec fn is_namespace_char(c: char) -> bool {
    ('a' <= c && c <= 'z') || ('0' <= c && c <= '9') || c == '_' || c == '-' || c == '.'
}

/// Whether `c` may appear in a path.
pub open spec fn is_path_char(c: char) -> bool {
    is_namespace_char(c) || c == '/'
}

/// The default namespace.
pub open spec fn default_namespace() -> Seq<char> {
    seq!['m', 'i', 'n', 'e', 'c', 'r', 'a', 'f', 't']
}

/// The position of the first `:` in `s`, if any.
pub open spec fn first_colon(s: Seq<char>) -> Option<int> {
    if exists|i: int| 0 <= i < s.len() && s[i] == ':' {
        Some(choose|i: int| 0 <= i < s.len() && s[i] == ':' && forall|j: int| 0 <= j < i ==> s[j] != ':')
    } else {
        None
    }
}

/// The namespace part of `s`, with the default filled in.
pub open spec fn spec_namespace(s: Seq<char>) -> Seq<char> {
    match first_colon(s) {
        Some(i) => if i == 0 { default_namespace() } else { s.subrange(0, i) },
        None => default_namespace(),
    }
}

/// The path part of `s`.
pub open spec fn spec_path(s: Seq<char>) -> Seq<char> {
    match first_colon(s) {
        Some(i) => s.subrange(i + 1, s.len() as int),
        None => s,
    }
}

/// The identifier written as `s`, in full form `namespace:path`, if `s` is valid.
pub open spec fn spec_parse_identifier(s: Seq<char>) -> Option<Seq<char>> {
    if (forall|j: int| 0 <= j < spec_namespace(s).len() ==> is_namespace_char(#[trigger] spec_namespace(s)[j]))
        && (forall|j: int| 0 <= j < spec_path(s).len() ==> is_path_char(#[trigger] spec_path(s)[j])) {
        Some(spec_namespace(s) + seq![':'] + spec_path(s))
    } else {
        None
    }
}

fn is_namespace_char_exec(c: char) -> (res: bool)
    ensures
        res == is_namespace_char(c),
{
    ('a' <= c && c <= 'z') || ('0' <= c && c <= '9') || c == '_' || c == '-' || c == '.'
}

/// Parses `s` as an identifier and returns it in full form `namespace:path`.
pub fn parse_identifier(s: &str) -> (res: Option<String>)
    ensures
        match res {
            Some(id) => spec_parse_identifier(s@) == Some(id@),
            None => spec_parse_identifier(s@) is None,
        },
{
    let n = s.unicode_len();
    let mut colon: usize = n;
    let mut i: usize = 0;
    while i < n
        invariant
            n == s@.len(),
            i <= n,
            colon <= n,
            colon == n ==> forall|j: int| 0 <= j < i ==> s@[j] != ':',
            colon < n ==> colon < i && s@[colon as int] == ':' && forall|j: int| 0 <= j < colon ==> s@[j] != ':',
        decreases n - i,
    {
        if colon == n && s.get_char(i) == ':' {
            colon = i;
        }
        i = i + 1;
    }
    proof {
        if colon < n {
            let c = colon as int;
            assert(0 <= c < s@.len() && s@[c] == ':');
            assert(0 <= c < s@.len() && s@[c] == ':' && forall|j: int| 0 <= j < c ==> s@[j] != ':');
            let w = choose|k: int| 0 <= k < s@.len() && s@[k] == ':' && forall|j: int| 0 <= j < k ==> s@[j] != ':';
            assert(0 <= w < s@.len() && s@[w] == ':' && forall|j: int| 0 <= j < w ==> s@[j] != ':');
            if w < c {
                assert(s@[w] != ':');
            } else if w > c {
                assert(s@[c] != ':');
            }
            assert(first_colon(s@) == Some(c));
        } else {
            assert(first_colon(s@) is None);
        }
    }
    let default_ns = colon == 0 || colon == n;
    let ghost namespace = if default_ns { default_namespace() } else { s@.subrange(0, colon as int) };
    assert(namespace == spec_namespace(s@));
    if !default_ns {
        let mut k: usize = 0;
        while k < colon
            invariant
                n == s@.len(),
                colon < n,
                k <= colon,
                namespace == s@.subrange(0, colon as int),
                namespace == spec_namespace(s@),
                forall|j: int| 0 <= j < k ==> is_namespace_char(#[trigger] namespace[j]),
            decreases colon - k,
        {
            let c = s.get_char(k);
            if !is_namespace_char_exec(c) {
                assert(!is_namespace_char(spec_namespace(s@)[k as int]));
                return None;
            }
            k = k + 1;
        }
    }
    proof {
        if default_ns {
            assert forall|j: int| 0 <= j < namespace.len() implies is_namespace_char(#[trigger] namespace[j]) by {
                assert(namespace =~= seq!['m', 'i', 'n', 'e', 'c', 'r', 'a', 'f', 't']);
            }
        }
    }
    let start: usize = if colon == n { 0 } else { colon + 1 };
    let ghost path = s@.subrange(start as int, n as int);
    assert(path =~= spec_path(s@));
    let mut k: usize = start;
    while k < n
        invariant
            n == s@.len(),
            start <= k <= n,
            path == s@.subrange(start as int, n as int),
            path == spec_path(s@),
            forall|j: int| 0 <= j < k - start ==> is_path_char(#[trigger] path[j]),
        decreases n - k,
    {
        let c = s.get_char(k);
        if !(is_namespace_char_exec(c) || c == '/') {
            assert(!is_path_char(spec_path(s@)[k - start]));
            return None;
        }
        k = k + 1;
    }
    let mut out = if default_ns {
        proof {
            reveal_strlit("minecraft");
        }
        String::from_str("minecraft")
    } else {
        String::from_str(s.substring_char(0, colon))
    };
    assert(out@ =~= namespace);
    proof {
        reveal_strlit(":");
    }
    out.append(":");
    out.append(s.substring_char(start, n));
    assert(out@ =~= namespace + seq![':'] + path);
    Some(out)
}

/// A string holding a colon has a first colon.
proof fn lemma_first_colon_exists(s: Seq<char>, k: int)
    requires
        0 <= k < s.len(),
        s[k] == ':',
    ensures
        exists|i: int| 0 <= i < s.len() && s[i] == ':' && forall|j: int| 0 <= j < i ==> s[j] != ':',
    decreases k,
{
    if exists|j: int| 0 <= j < k && s[j] == ':' {
        let j = choose|j: int| 0 <= j < k && s[j] == ':';
        lemma_first_colon_exists(s, j);
    } else {
        assert(0 <= k < s.len() && s[k] == ':' && forall|j: int| 0 <= j < k ==> s[j] != ':');
    }
}

/// An identifier in full form starts with a namespace character, so never
/// with `!`.
pub proof fn lemma_canonical_identifier_head(s: Seq<char>)
    requires
        spec_parse_identifier(s) == Some(s),
    ensures
        s.len() > 0,
        is_namespace_char(s[0]),
{
    let ns = spec_namespace(s);
    match first_colon(s) {
        Some(i) => {
            let k = choose|k: int| 0 <= k < s.len() && s[k] == ':';
            lemma_first_colon_exists(s, k);
            assert(0 <= i < s.len());
            if i != 0 {
                assert(ns.len() == i);
            }
        },
        None => {},
    }
    assert(ns.len() > 0);
    assert(is_namespace_char(ns[0]));
    assert((ns + seq![':'] + spec_path(s))[0] == ns[0]);
}

} // verus!
