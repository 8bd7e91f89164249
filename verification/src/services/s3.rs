//! S3 connection parameters, target resolution, endpoint validation, prefix shaping,
//! error reports and the assembly of listing results from raw response values.
use crate::keys::{sort_by_key, with_key};
use crate::text::{
    chars_end_with, chars_eq_str, decimal, decimal_string, owned, str_chars, string_from_chars,
    strip_leading, strip_leading_chars, trim, trim_str,
};
use vstd::prelude::*;

verus! {

/// Metadata of one object in a bucket.
#[derive(Debug, Clone)]
pub struct S3ObjectSummary {
    pub key: String,
    pub size: u64,
    pub modified: String,
}

impl S3ObjectSummary {
    /// A field-by-field copy.
    pub fn duplicate(&self) -> (r: Self)
        ensures
            r == *self,
    {
        S3ObjectSummary { key: self.key.clone(), size: self.size, modified: self.modified.clone() }
    }
}

/// One page of a delimited listing: the sub-prefixes and the objects directly under a prefix.
#[derive(Debug, Clone)]
pub struct S3ListResult {
    pub prefixes: Vec<String>,
    pub objects: Vec<S3ObjectSummary>,
}

/// Outcome of a finished download.
#[derive(Debug, Clone, Copy)]
pub struct S3DownloadResult {
    pub bytes_written: u64,
}

/// Where requests are sent: a named credentials profile, a custom endpoint, or the
/// default credential chain.
#[derive(Debug, Clone, PartialEq, Eq)]
pub enum S3Target {
    Profile { profile: String },
    Endpoint { endpoint_url: String },
    DefaultChain,
}

/// The abstract value of an [`S3Target`].
pub enum TargetSpec {
    Profile(Seq<char>),
    Endpoint(Seq<char>),
    DefaultChain,
}

impl View for S3Target {
    type V = TargetSpec;

    open spec fn view(&self) -> TargetSpec {
        match self {
            S3Target::Profile { profile } => TargetSpec::Profile(profile@),
            S3Target::Endpoint { endpoint_url } => TargetSpec::Endpoint(endpoint_url@),
            S3Target::DefaultChain => TargetSpec::DefaultChain,
        }
    }
}

/// A condition worth telling the user about while resolving the target.
#[derive(Debug, Clone, Copy, PartialEq, Eq, Structural)]
pub enum TargetWarning {
    ProfileOverridesEndpoint,
}

/// Everything needed to address one listing or download request.
#[derive(Debug, Clone)]
pub struct S3ConnectParams {
    pub profile: String,
    pub region: String,
    pub bucket: String,
    pub prefix: String,
    pub endpoint_url: String,
    pub max_keys: i32,
}

impl S3ConnectParams {
    /// A field-by-field copy.
    pub fn duplicate(&self) -> (r: Self)
        ensures
            r == *self,
    {
        S3ConnectParams {
            profile: self.profile.clone(),
            region: self.region.clone(),
            bucket: self.bucket.clone(),
            prefix: self.prefix.clone(),
            endpoint_url: self.endpoint_url.clone(),
            max_keys: self.max_keys,
        }
    }
}

/// Target precedence: a non-blank profile wins over a non-blank endpoint, which wins over
/// the default chain; a profile given together with an endpoint draws a warning.
/// Both inputs are compared after trimming whitespace.
pub open spec fn resolved_target(profile: Seq<char>, endpoint_url: Seq<char>) -> (
    TargetSpec,
    Option<TargetWarning>,
) {
    let p = trim(profile);
    let e = trim(endpoint_url);
    if p.len() > 0 {
        (
            TargetSpec::Profile(p),
            if e.len() > 0 {
                Some(TargetWarning::ProfileOverridesEndpoint)
            } else {
                None
            },
        )
    } else if e.len() > 0 {
        (TargetSpec::Endpoint(e), None)
    } else {
        (TargetSpec::DefaultChain, None)
    }
}

/// Decides which target requests go to, and whether the user should be warned.
pub fn resolve_target(profile: &str, endpoint_url: &str) -> (r: (S3Target, Option<TargetWarning>))
    ensures
        (r.0@, r.1) == resolved_target(profile@, endpoint_url@),
{
    let p = trim_str(profile);
    let e = trim_str(endpoint_url);
    if p.len() > 0 {
        let warning = if e.len() > 0 {
            Some(TargetWarning::ProfileOverridesEndpoint)
        } else {
            None
        };
        return (S3Target::Profile { profile: string_from_chars(&p) }, warning);
    }
    if e.len() > 0 {
        return (S3Target::Endpoint { endpoint_url: string_from_chars(&e) }, None);
    }
    (S3Target::DefaultChain, None)
}

/// Whether `://` starts at index `i` of `s`.
pub open spec fn scheme_sep_at(s: Seq<char>, i: int) -> bool {
    0 <= i && i + 3 <= s.len() && s[i] == ':' && s[i + 1] == '/' && s[i + 2] == '/'
}

/// The first index at or after `i` where `://` starts.
pub open spec fn find_scheme_sep(s: Seq<char>, i: int) -> Option<int>
    decreases s.len() - i,
{
    if i < 0 || i + 3 > s.len() {
        None
    } else if scheme_sep_at(s, i) {
        Some(i)
    } else {
        find_scheme_sep(s, i + 1)
    }
}

/// The characters of `s` before its first `/`.
pub open spec fn before_slash(s: Seq<char>) -> Seq<char>
    decreases s.len(),
{
    if s.len() == 0 || s[0] == '/' {
        Seq::empty()
    } else {
        seq![s[0]] + before_slash(s.drop_first())
    }
}

/// Why a (trimmed, non-empty) endpoint URL is unusable, if it is.
pub open spec fn endpoint_problem(e: Seq<char>) -> Option<Seq<char>> {
    match find_scheme_sep(e, 0) {
        None => Some("endpoint-url must include scheme (http:// or https://)"@),
        Some(i) => {
            let scheme = e.subrange(0, i);
            let authority = before_slash(e.subrange(i + 3, e.len() as int));
            if scheme != "http"@ && scheme != "https"@ {
                Some("endpoint-url scheme must be http or https"@)
            } else if authority.len() == 0 {
                Some("endpoint-url host is missing"@)
            } else if authority.contains(' ') {
                Some("endpoint-url must not contain spaces"@)
            } else {
                None
            }
        },
    }
}

fn find_scheme_sep_exec(v: &Vec<char>) -> (r: Option<usize>)
    ensures
        match r {
            Some(i) => find_scheme_sep(v@, 0) == Some(i as int) && i + 3 <= v@.len(),
            None => find_scheme_sep(v@, 0) is None,
        },
{
    let mut i: usize = 0;
    while i < v.len() && v.len() - i >= 3
        invariant
            i <= v.len(),
            find_scheme_sep(v@, 0) == find_scheme_sep(v@, i as int),
        decreases v.len() - i,
    {
        if v[i] == ':' && v[i + 1] == '/' && v[i + 2] == '/' {
            return Some(i);
        }
        i = i + 1;
    }
    None
}

fn before_slash_exec(v: &Vec<char>, start: usize) -> (r: Vec<char>)
    requires
        start <= v.len(),
    ensures
        r@ == before_slash(v@.subrange(start as int, v.len() as int)),
{
    let mut j: usize = start;
    while j < v.len() && v[j] != '/'
        invariant
            start <= j <= v.len(),
            forall|k: int| start <= k < j ==> v@[k] != '/',
        decreases v.len() - j,
    {
        j = j + 1;
    }
    proof {
        lemma_before_slash(v@, start as int, j as int);
    }
    crate::text::chars_range(v, start, j)
}

proof fn lemma_before_slash(v: Seq<char>, start: int, j: int)
    requires
        0 <= start <= j <= v.len(),
        forall|k: int| start <= k < j ==> v[k] != '/',
        j == v.len() || v[j] == '/',
    ensures
        before_slash(v.subrange(start, v.len() as int)) == v.subrange(start, j),
    decreases j - start,
{
    let s = v.subrange(start, v.len() as int);
    if start < j {
        assert(s.drop_first() =~= v.subrange(start + 1, v.len() as int));
        lemma_before_slash(v, start + 1, j);
        assert(v.subrange(start, j) =~= seq![s[0]] + v.subrange(start + 1, j));
    } else {
        assert(v.subrange(start, j) =~= Seq::<char>::empty());
    }
}

/// Checks an endpoint URL: blank is accepted (no endpoint); otherwise it needs an
/// `http` or `https` scheme, a non-empty host part, and no space in the host part.
pub fn validate_endpoint_url(endpoint_url: &str) -> (r: Result<(), String>)
    ensures
        match r {
            Ok(()) => trim(endpoint_url@).len() == 0 || endpoint_problem(trim(endpoint_url@))
                is None,
            Err(m) => trim(endpoint_url@).len() > 0 && endpoint_problem(trim(endpoint_url@))
                == Some(m@),
        },
{
    let e = trim_str(endpoint_url);
    if e.len() == 0 {
        return Ok(());
    }
    let sep = find_scheme_sep_exec(&e);
    match sep {
        None => Err(owned("endpoint-url must include scheme (http:// or https://)")),
        Some(i) => {
            let scheme = crate::text::chars_range(&e, 0, i);
            let authority = before_slash_exec(&e, i + 3);
            if !chars_eq_str(&scheme, "http") && !chars_eq_str(&scheme, "https") {
                return Err(owned("endpoint-url scheme must be http or https"));
            }
            if authority.len() == 0 {
                return Err(owned("endpoint-url host is missing"));
            }
            if crate::text::chars_contain(&authority, ' ') {
                return Err(owned("endpoint-url must not contain spaces"));
            }
            Ok(())
        },
    }
}

/// The listing prefix sent to S3 for a browser path: trimmed, without leading slashes,
/// with exactly the given trailing slash added when missing; none for the bucket root.
pub open spec fn api_prefix(path: Seq<char>) -> Option<Seq<char>> {
    let t = strip_leading(trim(path), '/');
    if t.len() == 0 {
        None
    } else if t.last() == '/' {
        Some(t)
    } else {
        Some(t.push('/'))
    }
}

/// The S3 `prefix` request parameter for a browser path.
pub fn s3_api_prefix(path: &str) -> (r: Option<String>)
    ensures
        match r {
            Some(s) => api_prefix(path@) == Some(s@),
            None => api_prefix(path@) is None,
        },
{
    let t = trim_str(path);
    let t = strip_leading_chars(&t, '/');
    if t.len() == 0 {
        None
    } else if chars_end_with(&t, '/') {
        Some(string_from_chars(&t))
    } else {
        let mut s = string_from_chars(&t);
        crate::text::push_char(&mut s, '/');
        Some(s)
    }
}

/// How a target is named on screen and in logs.
pub open spec fn target_text(t: TargetSpec) -> Seq<char> {
    match t {
        TargetSpec::Profile(p) => "aws-profile:"@ + p,
        TargetSpec::Endpoint(e) => "endpoint:"@ + e,
        TargetSpec::DefaultChain => "default-chain"@,
    }
}

/// The on-screen name of a target.
pub fn target_label(target: &S3Target) -> (r: String)
    ensures
        r@ == target_text(target@),
{
    match target {
        S3Target::Profile { profile } => {
            let mut s = owned("aws-profile:");
            s.append(profile.as_str());
            s
        },
        S3Target::Endpoint { endpoint_url } => {
            let mut s = owned("endpoint:");
            s.append(endpoint_url.as_str());
            s
        },
        S3Target::DefaultChain => owned("default-chain"),
    }
}

/// The trailing `cause[n]=...` lines of an error report, numbered from 1.
pub open spec fn cause_lines(causes: Seq<Seq<char>>) -> Seq<char>
    decreases causes.len(),
{
    if causes.len() == 0 {
        Seq::empty()
    } else {
        cause_lines(causes.drop_last()) + "\ncause["@ + decimal(causes.len()) + "]="@ + causes.last()
    }
}

/// The multi-line report of a failed S3 operation: what was attempted, against which
/// target and bucket, the error's text and debug form, and its chain of causes.
pub open spec fn s3_error_text(
    operation: Seq<char>,
    params: S3ConnectParams,
    target: TargetSpec,
    error: Seq<char>,
    debug: Seq<char>,
    causes: Seq<Seq<char>>,
) -> Seq<char> {
    "operation="@ + operation + "\n"@ + "target="@ + target_text(target) + "\n"@ + "region="@
        + params.region@ + "\n"@ + "bucket="@ + params.bucket@ + "\n"@ + "prefix="@ + params.prefix@
        + "\n"@ + "endpoint_url="@ + params.endpoint_url@ + "\n"@ + "error="@ + error + "\n"@
        + "debug="@ + debug + cause_lines(causes)
}

/// The report for a failed S3 operation, given the error's text, its debug form and the
/// texts of its causes, innermost last.
pub fn format_s3_error(
    operation: &str,
    params: &S3ConnectParams,
    target: &S3Target,
    error: &str,
    debug: &str,
    causes: &Vec<String>,
) -> (r: String)
    ensures
        r@ == s3_error_text(operation@, *params, target@, error@, debug@, causes@.map_values(|c: String| c@)),
{
    let mut message = owned("operation=");
    message.append(operation);
    message.append("\n");
    message.append("target=");
    message.append(target_label(target).as_str());
    message.append("\n");
    message.append("region=");
    message.append(params.region.as_str());
    message.append("\n");
    message.append("bucket=");
    message.append(params.bucket.as_str());
    message.append("\n");
    message.append("prefix=");
    message.append(params.prefix.as_str());
    message.append("\n");
    message.append("endpoint_url=");
    message.append(params.endpoint_url.as_str());
    message.append("\n");
    message.append("error=");
    message.append(error);
    message.append("\n");
    message.append("debug=");
    message.append(debug);
    let ghost head = message@;
    let ghost cs = causes@.map_values(|c: String| c@);
    let mut index: usize = 0;
    while index < causes.len()
        invariant
            index <= causes@.len(),
            cs == causes@.map_values(|c: String| c@),
            message@ == head + cause_lines(cs.take(index as int)),
        decreases causes.len() - index,
    {
        message.append("\ncause[");
        append_number(&mut message, index as u64 + 1);
        message.append("]=");
        message.append(causes[index].as_str());
        proof {
            assert(cs.take(index + 1).drop_last() =~= cs.take(index as int));
            assert(cs.take(index + 1).last() == causes@[index as int]@);
        }
        index = index + 1;
    }
    assert(cs.take(causes@.len() as int) =~= cs);
    message
}

fn append_number(s: &mut String, n: u64)
    ensures
        final(s)@ == old(s)@ + decimal(n as nat),
{
    let d = decimal_string(n);
    s.append(d.as_str());
}

/// An object entry of a listing response, as plain values: key, size in bytes, and the
/// modification time already rendered as text.
#[derive(Debug)]
pub struct S3RawObject {
    pub key: Option<String>,
    pub size: Option<i64>,
    pub last_modified: Option<String>,
}

/// The size reported for an entry: missing or negative sizes count as 0.
pub open spec fn reported_size(size: Option<i64>) -> u64 {
    match size {
        Some(n) => if n > 0 {
            n as u64
        } else {
            0
        },
        None => 0,
    }
}

/// `s` summarises raw entry `o`.
pub open spec fn summarises(o: S3RawObject, s: S3ObjectSummary) -> bool {
    &&& o.key == Some(s.key)
    &&& s.size == reported_size(o.size)
    &&& s.modified@ == match o.last_modified {
        Some(m) => m@,
        None => "-"@,
    }
}

/// `f` summarises, in order, the entries of `raws` that have a key.
pub open spec fn summarised(raws: Seq<S3RawObject>, f: Seq<S3ObjectSummary>) -> bool
    decreases raws.len(),
{
    if raws.len() == 0 {
        f.len() == 0
    } else if raws.last().key is None {
        summarised(raws.drop_last(), f)
    } else {
        f.len() > 0 && summarises(raws.last(), f.last()) && summarised(raws.drop_last(), f.drop_last())
    }
}

/// The summary of an entry, if it has a key.
pub fn object_summary(raw: &S3RawObject) -> (r: Option<S3ObjectSummary>)
    ensures
        match r {
            Some(s) => summarises(*raw, s),
            None => raw.key is None,
        },
{
    match &raw.key {
        None => None,
        Some(key) => {
            let size: u64 = match raw.size {
                Some(n) => if n > 0 {
                    n as u64
                } else {
                    0
                },
                None => 0,
            };
            let modified = match &raw.last_modified {
                Some(m) => m.clone(),
                None => owned("-"),
            };
            Some(S3ObjectSummary { key: key.clone(), size, modified })
        },
    }
}

/// The summaries of the entries that have a key, ordered by key (entries with equal keys
/// keep their order).
pub fn summaries_by_key(raws: &Vec<S3RawObject>) -> (r: Vec<S3ObjectSummary>)
    ensures
        crate::keys::sorted_by_key(r@),
        exists|f: Seq<S3ObjectSummary>| #[trigger] summarised(raws@, f) && f.to_multiset() =~= r@.to_multiset()
            && forall|k: Seq<char>| #[trigger] with_key(r@, k) == with_key(f, k),
{
    let mut found: Vec<S3ObjectSummary> = Vec::new();
    let mut i: usize = 0;
    while i < raws.len()
        invariant
            i <= raws@.len(),
            summarised(raws@.take(i as int), found@),
        decreases raws.len() - i,
    {
        proof {
            assert(raws@.take(i + 1).drop_last() =~= raws@.take(i as int));
            assert(raws@.take(i + 1).last() == raws@[i as int]);
        }
        match object_summary(&raws[i]) {
            Some(s) => {
                let ghost before = found@;
                found.push(s);
                assert(found@.drop_last() =~= before);
            },
            None => {},
        }
        i = i + 1;
    }
    assert(raws@.take(raws@.len() as int) =~= raws@);
    let ghost f = found@;
    let r = sort_by_key(found);
    assert(summarised(raws@, f) && f.to_multiset() =~= r@.to_multiset() && forall|k: Seq<char>| #[trigger] with_key(r@, k) == with_key(f, k));
    r
}

/// The present values of `opts`, in order.
pub open spec fn present(opts: Seq<Option<String>>) -> Seq<String>
    decreases opts.len(),
{
    if opts.len() == 0 {
        Seq::empty()
    } else {
        match opts.last() {
            Some(x) => present(opts.drop_last()).push(x),
            None => present(opts.drop_last()),
        }
    }
}

/// The present prefixes, in ascending order.
pub fn sorted_prefixes(prefixes: &Vec<Option<String>>) -> (r: Vec<String>)
    ensures
        crate::keys::sorted_by_key(r@),
        r@.to_multiset() =~= present(prefixes@).to_multiset(),
        forall|k: Seq<char>| #[trigger] with_key(r@, k) == with_key(present(prefixes@), k),
{
    let mut found: Vec<String> = Vec::new();
    let mut i: usize = 0;
    while i < prefixes.len()
        invariant
            i <= prefixes@.len(),
            found@ == present(prefixes@.take(i as int)),
        decreases prefixes.len() - i,
    {
        proof {
            assert(prefixes@.take(i + 1).drop_last() =~= prefixes@.take(i as int));
            assert(prefixes@.take(i + 1).last() == prefixes@[i as int]);
        }
        match &prefixes[i] {
            Some(p) => found.push(p.clone()),
            None => {},
        }
        i = i + 1;
    }
    assert(prefixes@.take(prefixes@.len() as int) =~= prefixes@);
    sort_by_key(found)
}

/// One page of a delimited listing from the response's common prefixes and entries:
/// both ordered, entries without a key skipped.
pub fn listing_from_response(prefixes: &Vec<Option<String>>, contents: &Vec<S3RawObject>) -> (r: S3ListResult)
    ensures
        crate::keys::sorted_by_key(r.prefixes@),
        r.prefixes@.to_multiset() =~= present(prefixes@).to_multiset(),
        forall|k: Seq<char>| #[trigger] with_key(r.prefixes@, k) == with_key(present(prefixes@), k),
        crate::keys::sorted_by_key(r.objects@),
        exists|f: Seq<S3ObjectSummary>| #[trigger] summarised(contents@, f) && f.to_multiset() =~= r.objects@.to_multiset()
            && forall|k: Seq<char>| #[trigger] with_key(r.objects@, k) == with_key(f, k),
{
    S3ListResult { prefixes: sorted_prefixes(prefixes), objects: summaries_by_key(contents) }
}

/// The bucket name sent with a request: the configured name without surrounding blanks.
pub fn request_bucket(params: &S3ConnectParams) -> (r: String)
    ensures
        r@ == trim(params.bucket@),
{
    string_from_chars(&trim_str(params.bucket.as_str()))
}

/// The page size asked for when every object under a prefix is listed: the configured
/// size, but at least a thousand.
pub fn full_listing_page_size(params: &S3ConnectParams) -> (r: i32)
    ensures
        r == if params.max_keys > 1000 {
            params.max_keys
        } else {
            1000
        },
{
    if params.max_keys > 1000 {
        params.max_keys
    } else {
        1000
    }
}

/// The token for the next page of a full listing: the response's continuation token
/// when it says it is truncated; otherwise the listing is complete.
pub fn continuation_after(is_truncated: Option<bool>, next_token: Option<String>) -> (r: Option<String>)
    ensures
        r == if is_truncated == Some(true) {
            next_token
        } else {
            None
        },
{
    match is_truncated {
        Some(true) => next_token,
        _ => None,
    }
}

} // verus!
