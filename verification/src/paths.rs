//! Browser paths: normalisation, parent navigation, display names and time formatting.
use crate::services::s3::{api_prefix, s3_api_prefix};
use crate::text::{
    chars_end_with, chars_range, chars_starts_with, decimal_pad2, decimal_pad2_string, push_char,
    str_chars, string_from_chars, strip_trailing, strip_trailing_chars,
};
use crate::system::{joined_path, main_separator, path_join};
use std::path::PathBuf;
use vstd::prelude::*;

verus! {

/// A browser path that starts with `/`: empty becomes the root `/`, and a missing
/// leading slash is added.
pub open spec fn normalized(p: Seq<char>) -> Seq<char> {
    if p.len() == 0 {
        seq!['/']
    } else if p[0] == '/' {
        p
    } else {
        seq!['/'] + p
    }
}

/// The browser path for a prefix.
pub fn normalize_prefix(prefix: &str) -> (r: String)
    ensures
        r@ == normalized(prefix@),
{
    let v = str_chars(prefix);
    if v.len() == 0 {
        let mut s = String::new();
        push_char(&mut s, '/');
        return s;
    }
    if v[0] == '/' {
        string_from_chars(&v)
    } else {
        let mut s = String::new();
        push_char(&mut s, '/');
        let mut i: usize = 0;
        while i < v.len()
            invariant
                i <= v.len(),
                s@ == seq!['/'] + v@.take(i as int),
            decreases v.len() - i,
        {
            push_char(&mut s, v[i]);
            i = i + 1;
            assert(v@.take(i as int) =~= v@.take(i - 1).push(v@[i - 1]));
        }
        assert(v@.take(v.len() as int) =~= v@);
        s
    }
}

/// Normalising twice changes nothing, and the result always starts with `/`.
pub proof fn lemma_normalized_idempotent(p: Seq<char>)
    ensures
        normalized(normalized(p)) == normalized(p),
        normalized(p).len() > 0,
        normalized(p)[0] == '/',
{
}

/// The S3 listing prefix for a browser path (see [`api_prefix`]).
pub fn api_prefix_from_path(path: &str) -> (r: Option<String>)
    ensures
        match r {
            Some(s) => api_prefix(path@) == Some(s@),
            None => api_prefix(path@) is None,
        },
{
    s3_api_prefix(path)
}

/// The name shown for `key`: the key without the base prefix when it starts with it.
pub open spec fn display_name(key: Seq<char>, base: Option<Seq<char>>) -> Seq<char> {
    match base {
        Some(b) => if b.is_prefix_of(key) {
            key.subrange(b.len() as int, key.len() as int)
        } else {
            key
        },
        None => key,
    }
}

/// The characters of an optional string slice.
pub open spec fn opt_view(o: Option<&str>) -> Option<Seq<char>> {
    match o {
        Some(s) => Some(s@),
        None => None,
    }
}

/// The name to show for a key listed under `base_prefix`.
pub fn display_key(key: &str, base_prefix: Option<&str>) -> (r: String)
    ensures
        r@ == display_name(key@, opt_view(base_prefix)),
{
    let k = str_chars(key);
    match base_prefix {
        Some(base) => {
            let b = str_chars(base);
            if chars_starts_with(&k, &b) {
                let rest = chars_range(&k, b.len(), k.len());
                string_from_chars(&rest)
            } else {
                string_from_chars(&k)
            }
        },
        None => string_from_chars(&k),
    }
}

/// The index of the last `/` in `s`, if any.
pub open spec fn last_slash(s: Seq<char>) -> Option<int>
    decreases s.len(),
{
    if s.len() == 0 {
        None
    } else if s.last() == '/' {
        Some(s.len() - 1)
    } else {
        last_slash(s.drop_last())
    }
}

/// The browser path one level up: the root stays the root; otherwise trailing slashes
/// are dropped, the last path segment is cut off, and a trailing `/` is kept.
pub open spec fn parent_path(path: Seq<char>) -> Seq<char> {
    let n = normalized(path);
    if n == seq!['/'] {
        n
    } else {
        let t = strip_trailing(n, '/');
        let head = match last_slash(t) {
            Some(i) => t.subrange(0, i),
            None => Seq::empty(),
        };
        if head.len() == 0 {
            seq!['/']
        } else {
            head.push('/')
        }
    }
}

fn last_slash_exec(v: &Vec<char>) -> (r: Option<usize>)
    ensures
        match r {
            Some(i) => last_slash(v@) == Some(i as int) && i < v@.len(),
            None => last_slash(v@) is None,
        },
{
    let mut j: usize = v.len();
    assert(v@.subrange(0, j as int) =~= v@);
    while j > 0
        invariant
            j <= v.len(),
            last_slash(v@) == last_slash(v@.subrange(0, j as int)),
        decreases j,
    {
        if v[j - 1] == '/' {
            return Some(j - 1);
        }
        assert(v@.subrange(0, j as int).drop_last() =~= v@.subrange(0, j - 1));
        j = j - 1;
    }
    None
}

/// The browser path of the parent of `path`.
pub fn parent_prefix(path: &str) -> (r: String)
    ensures
        r@ == parent_path(path@),
{
    let normalized_path = normalize_prefix(path);
    let n = str_chars(normalized_path.as_str());
    if n.len() == 1 && n[0] == '/' {
        assert(n@ =~= seq!['/']);
        return normalized_path;
    }
    assert(n@ != seq!['/']);
    let t = strip_trailing_chars(&n, '/');
    let head = match last_slash_exec(&t) {
        Some(i) => chars_range(&t, 0, i),
        None => Vec::new(),
    };
    if head.len() == 0 {
        let mut s = String::new();
        push_char(&mut s, '/');
        s
    } else {
        let mut s = string_from_chars(&head);
        push_char(&mut s, '/');
        s
    }
}

proof fn lemma_strip_trailing_prefix(s: Seq<char>, c: char)
    ensures
        strip_trailing(s, c).is_prefix_of(s),
        strip_trailing(s, c).len() == 0 || strip_trailing(s, c).last() != c,
    decreases s.len(),
{
    if s.len() > 0 && s.last() == c {
        lemma_strip_trailing_prefix(s.drop_last(), c);
    }
}

proof fn lemma_last_slash(s: Seq<char>)
    ensures
        match last_slash(s) {
            Some(i) => 0 <= i < s.len() && s[i] == '/',
            None => forall|k: int| 0 <= k < s.len() ==> s[k] != '/',
        },
    decreases s.len(),
{
    if s.len() > 0 && s.last() != '/' {
        lemma_last_slash(s.drop_last());
        assert forall|k: int| 0 <= k < s.len() - 1 implies s[k] == s.drop_last()[k] by {}
    }
}

/// Going up one level always ends at a path that starts with `/`, that begins the path
/// it came from, and that is strictly shorter unless it came from the root: repeated
/// parent steps reach the root.
pub proof fn lemma_parent_path_shrinks(path: Seq<char>)
    ensures
        parent_path(path).len() > 0,
        parent_path(path)[0] == '/',
        parent_path(path).last() == '/',
        parent_path(path).is_prefix_of(normalized(path)),
        normalized(path) != seq!['/'] ==> parent_path(path).len() < normalized(path).len(),
{
    let n = normalized(path);
    if n != seq!['/'] {
        let t = strip_trailing(n, '/');
        lemma_strip_trailing_prefix(n, '/');
        lemma_last_slash(t);
        match last_slash(t) {
            Some(i) => {
                if i > 0 {
                    assert(t[i] == '/');
                    assert(t.subrange(0, i).push('/') =~= t.subrange(0, i + 1));
                    assert(i + 1 < t.len());
                    assert(t.subrange(0, i)[0] == n[0]);
                } else {
                    assert(n.len() > 1);
                }
            },
            None => {
                if t.len() > 0 {
                    assert(t[0] == n[0]);
                }
                assert(n.len() > 1) by {
                    if n.len() == 1 {
                        assert(n =~= seq!['/']);
                    }
                }
            },
        }
    }
}

/// `mm:ss`, or `hh:mm:ss` from one hour on, each field zero-padded to two digits.
pub open spec fn eta_text(total_seconds: nat) -> Seq<char> {
    let hours = total_seconds / 3600;
    let minutes = (total_seconds % 3600) / 60;
    let seconds = total_seconds % 60;
    if hours > 0 {
        decimal_pad2(hours) + seq![':'] + decimal_pad2(minutes) + seq![':'] + decimal_pad2(seconds)
    } else {
        decimal_pad2(minutes) + seq![':'] + decimal_pad2(seconds)
    }
}

/// A duration in seconds as a clock text.
pub fn format_eta(total_seconds: u64) -> (r: String)
    ensures
        r@ == eta_text(total_seconds as nat),
{
    let hours = total_seconds / 3_600;
    let minutes = (total_seconds % 3_600) / 60;
    let seconds = total_seconds % 60;
    let mut out = String::new();
    if hours > 0 {
        out.append(decimal_pad2_string(hours).as_str());
        push_char(&mut out, ':');
    }
    out.append(decimal_pad2_string(minutes).as_str());
    push_char(&mut out, ':');
    out.append(decimal_pad2_string(seconds).as_str());
    out
}

/// `key` with every `/` replaced by `sep`.
pub open spec fn with_separator(key: Seq<char>, sep: char) -> Seq<char> {
    key.map_values(|c: char| if c == '/' { sep } else { c })
}

/// The key with its `/` separators replaced by `sep`.
pub fn sanitized_key(key: &str, sep: char) -> (r: String)
    ensures
        r@ == with_separator(key@, sep),
{
    let v = str_chars(key);
    let mut s = String::new();
    let mut i: usize = 0;
    while i < v.len()
        invariant
            i <= v.len(),
            s@ == with_separator(v@.take(i as int), sep),
        decreases v.len() - i,
    {
        let c = if v[i] == '/' { sep } else { v[i] };
        push_char(&mut s, c);
        i = i + 1;
        assert(with_separator(v@.take(i as int), sep) =~= with_separator(v@.take(i - 1), sep).push(c));
    }
    assert(v@.take(v.len() as int) =~= v@);
    s
}

/// Where an object is saved when the platform's path separator is `sep`: the download
/// root joined with the key, whose `/` separators become `sep`.
pub(crate) fn destination_with_separator(root: &PathBuf, key: &str, sep: char) -> (r: PathBuf)
    ensures
        r == joined_path(*root, with_separator(key@, sep)),
{
    let sanitized = sanitized_key(key, sep);
    path_join(root, sanitized.as_str())
}

/// Where an object is saved: the download root joined with the key, whose `/`
/// separators become the platform's separator (which one that is depends on the
/// platform and is not stated).
pub fn local_destination_for_key(root: &PathBuf, key: &str) -> (r: PathBuf)
    ensures
        exists|sep: char| r == #[trigger] joined_path(*root, with_separator(key@, sep)),
{
    let sep = main_separator();
    destination_with_separator(root, key, sep)
}

} // verus!
