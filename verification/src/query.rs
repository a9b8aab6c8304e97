//! Options and queries carried in debug request paths.
use vstd::prelude::*;

use crate::text::{
    chars_eq_str, chars_of, lower_all, parse_u64, parse_unsigned, parse_usize, split_chars,
    split_on, split_once_chars, split_once_on, trim_chars, trimmed, char_ascii_lower,
};

verus! {

/// Which fields the layout inspection returns.
#[derive(Debug, Clone, Copy, PartialEq, Eq, Structural)]
pub struct InspectOptions {
    pub id: bool,
    pub layout: bool,
    pub global_pos: bool,
    pub clamp: bool,
    pub props: bool,
}

impl Default for InspectOptions {
    fn default() -> (r: Self)
        ensures
            r == (InspectOptions { id: false, layout: false, global_pos: false, clamp: false, props: false }),
    {
        InspectOptions { id: false, layout: false, global_pos: false, clamp: false, props: false }
    }
}

/// The options after one token of an options list.
pub open spec fn apply_token(o: InspectOptions, t: Seq<char>) -> InspectOptions {
    if t == "all"@ {
        InspectOptions { id: true, layout: true, global_pos: true, clamp: true, props: true }
    } else if t == "id"@ {
        InspectOptions { id: true, ..o }
    } else if t == "layout"@ {
        InspectOptions { layout: true, ..o }
    } else if t == "global_pos"@ {
        InspectOptions { layout: true, global_pos: true, ..o }
    } else if t == "clamp"@ {
        InspectOptions { layout: true, clamp: true, ..o }
    } else if t == "no_global_pos"@ {
        InspectOptions { global_pos: false, ..o }
    } else if t == "no_clamp"@ {
        InspectOptions { clamp: false, ..o }
    } else if t == "no_props"@ {
        InspectOptions { props: false, ..o }
    } else if t == "props"@ {
        InspectOptions { props: true, ..o }
    } else {
        o
    }
}

/// Each option token turns its own option on (`global_pos` and `clamp`
/// with `layout`, which they need, and `all` every option), each `no_`
/// token turns its own option off, and no token turns off an option other
/// than the one its `no_` form names.
pub proof fn law_option_tokens(o: InspectOptions, t: Seq<char>)
    ensures
        apply_token(o, "id"@).id,
        apply_token(o, "layout"@).layout,
        apply_token(o, "global_pos"@).global_pos && apply_token(o, "global_pos"@).layout,
        apply_token(o, "clamp"@).clamp && apply_token(o, "clamp"@).layout,
        apply_token(o, "props"@).props,
        apply_token(o, "all"@) == (InspectOptions { id: true, layout: true, global_pos: true, clamp: true, props: true }),
        !apply_token(o, "no_global_pos"@).global_pos,
        !apply_token(o, "no_clamp"@).clamp,
        !apply_token(o, "no_props"@).props,
        o.id ==> apply_token(o, t).id,
        o.layout ==> apply_token(o, t).layout,
        o.global_pos && t != "no_global_pos"@ ==> apply_token(o, t).global_pos,
        o.clamp && t != "no_clamp"@ ==> apply_token(o, t).clamp,
        o.props && t != "no_props"@ ==> apply_token(o, t).props,
{
    reveal_strlit("all");
    reveal_strlit("id");
    reveal_strlit("layout");
    reveal_strlit("global_pos");
    reveal_strlit("clamp");
    reveal_strlit("no_global_pos");
    reveal_strlit("no_clamp");
    reveal_strlit("no_props");
    reveal_strlit("props");
    assert("id"@.len() != "all"@.len());
    assert("layout"@.len() != "all"@.len());
    assert("layout"@.len() != "id"@.len());
    assert("global_pos"@.len() != "all"@.len());
    assert("global_pos"@.len() != "id"@.len());
    assert("global_pos"@.len() != "layout"@.len());
    assert("clamp"@.len() != "all"@.len());
    assert("clamp"@.len() != "id"@.len());
    assert("clamp"@.len() != "layout"@.len());
    assert("clamp"@.len() != "global_pos"@.len());
    assert("no_global_pos"@.len() != "all"@.len());
    assert("no_global_pos"@.len() != "id"@.len());
    assert("no_global_pos"@.len() != "layout"@.len());
    assert("no_global_pos"@.len() != "global_pos"@.len());
    assert("no_global_pos"@.len() != "clamp"@.len());
    assert("no_clamp"@.len() != "all"@.len());
    assert("no_clamp"@.len() != "id"@.len());
    assert("no_clamp"@.len() != "layout"@.len());
    assert("no_clamp"@.len() != "global_pos"@.len());
    assert("no_clamp"@.len() != "clamp"@.len());
    assert("no_clamp"@.len() != "no_global_pos"@.len());
    assert("no_props"@.len() != "all"@.len());
    assert("no_props"@.len() != "id"@.len());
    assert("no_props"@.len() != "layout"@.len());
    assert("no_props"@.len() != "global_pos"@.len());
    assert("no_props"@.len() != "clamp"@.len());
    assert("no_props"@.len() != "no_global_pos"@.len());
    assert("no_props"@[3] != "no_clamp"@[3]);
    assert("props"@.len() != "all"@.len());
    assert("props"@.len() != "id"@.len());
    assert("props"@.len() != "layout"@.len());
    assert("props"@.len() != "global_pos"@.len());
    assert("props"@[0] != "clamp"@[0]);
    assert("props"@.len() != "no_global_pos"@.len());
    assert("props"@.len() != "no_clamp"@.len());
    assert("props"@.len() != "no_props"@.len());
}

/// The options that the first `n` tokens of a comma-separated list give.
pub open spec fn options_after(tokens: Seq<Seq<char>>, n: int) -> InspectOptions
    decreases n,
{
    if n <= 0 {
        InspectOptions { id: false, layout: false, global_pos: false, clamp: false, props: false }
    } else {
        apply_token(options_after(tokens, n - 1), lower_all(trimmed(tokens[n - 1])))
    }
}

/// The options a comma-separated list gives: each token, trimmed and
/// lower-cased, applied in order (`all`, `id`, `layout`, `global_pos`,
/// `clamp`, `props`, and the `no_` forms that turn one off).
pub open spec fn inspect_options_of(options: Option<Seq<char>>) -> InspectOptions {
    match options {
        Some(s) => options_after(split_on(s, ','), split_on(s, ',').len() as int),
        None => InspectOptions { id: false, layout: false, global_pos: false, clamp: false, props: false },
    }
}

fn lower_chars(v: &Vec<char>) -> (r: Vec<char>)
    ensures
        r@ == lower_all(v@),
{
    let mut out: Vec<char> = Vec::new();
    let mut i: usize = 0;
    while i < v.len()
        invariant
            i <= v.len(),
            out@ == lower_all(v@.take(i as int)),
        decreases v.len() - i,
    {
        out.push(char_ascii_lower(v[i]));
        assert(lower_all(v@.take(i + 1)) =~= lower_all(v@.take(i as int)).push(crate::text::ascii_lower(v@[i as int])));
        i = i + 1;
    }
    assert(v@.take(v.len() as int) =~= v@);
    out
}

fn apply_token_exec(o: InspectOptions, t: &Vec<char>) -> (r: InspectOptions)
    ensures
        r == apply_token(o, t@),
{
    let mut out = o;
    if chars_eq_str(t, "all") {
        out = InspectOptions { id: true, layout: true, global_pos: true, clamp: true, props: true };
    } else if chars_eq_str(t, "id") {
        out.id = true;
    } else if chars_eq_str(t, "layout") {
        out.layout = true;
    } else if chars_eq_str(t, "global_pos") {
        out.layout = true;
        out.global_pos = true;
    } else if chars_eq_str(t, "clamp") {
        out.layout = true;
        out.clamp = true;
    } else if chars_eq_str(t, "no_global_pos") {
        out.global_pos = false;
    } else if chars_eq_str(t, "no_clamp") {
        out.clamp = false;
    } else if chars_eq_str(t, "no_props") {
        out.props = false;
    } else if chars_eq_str(t, "props") {
        out.props = true;
    }
    out
}

fn parse_inspect_option_chars(s: &Vec<char>) -> (r: InspectOptions)
    ensures
        r == inspect_options_of(Some(s@)),
{
    let tokens = split_chars(s, ',');
    let mut out = InspectOptions::default();
    let mut i: usize = 0;
    while i < tokens.len()
        invariant
            i <= tokens@.len(),
            tokens@.len() == split_on(s@, ',').len(),
            forall|k: int| 0 <= k < tokens@.len() ==> #[trigger] tokens@[k]@ == split_on(s@, ',')[k],
            out == options_after(split_on(s@, ','), i as int),
        decreases tokens.len() - i,
    {
        let t = lower_chars(&trim_chars(&tokens[i]));
        out = apply_token_exec(out, &t);
        i = i + 1;
    }
    out
}

/// The inspection options that a comma-separated list names.
pub fn parse_inspect_options(options: Option<&str>) -> (r: InspectOptions)
    ensures
        r == inspect_options_of(match options { Some(s) => Some(s@), None => None }),
{
    match options {
        Some(s) => parse_inspect_option_chars(&chars_of(s)),
        None => InspectOptions::default(),
    }
}

/// The `key=value` pairs of the query part of a request path (the text
/// between the first and second `?`), in order; pieces without `=` are left out.
pub open spec fn query_pairs(path: Seq<char>) -> Seq<Option<(Seq<char>, Seq<char>)>> {
    let parts = split_on(path, '?');
    if parts.len() > 1 {
        split_on(parts[1], '&').map_values(|p: Seq<char>| split_once_on(p, '='))
    } else {
        Seq::empty()
    }
}

/// The options after the first `n` query pairs: the value of each
/// `options` pair replaces the options.
pub open spec fn query_options_after(pairs: Seq<Option<(Seq<char>, Seq<char>)>>, n: int) -> InspectOptions
    decreases n,
{
    if n <= 0 {
        InspectOptions { id: false, layout: false, global_pos: false, clamp: false, props: false }
    } else {
        let prev = query_options_after(pairs, n - 1);
        match pairs[n - 1] {
            Some((k, v)) => if k == "options"@ { inspect_options_of(Some(v)) } else { prev },
            None => prev,
        }
    }
}

/// An exec query pair holds the given texts.
pub open spec fn pair_is(o: Option<(Vec<char>, Vec<char>)>, s: Option<(Seq<char>, Seq<char>)>) -> bool {
    match (o, s) {
        (Some((a, b)), Some((x, y))) => a@ == x && b@ == y,
        (None, None) => true,
        _ => false,
    }
}

/// Splits a request path into its query pairs.
fn query_pairs_exec(path: &str) -> (r: Vec<Option<(Vec<char>, Vec<char>)>>)
    ensures
        r@.len() == query_pairs(path@).len(),
        forall|k: int| 0 <= k < r@.len() ==> pair_is(r@[k], #[trigger] query_pairs(path@)[k]),
{
    let parts = split_chars(&chars_of(path), '?');
    let mut out: Vec<Option<(Vec<char>, Vec<char>)>> = Vec::new();
    if parts.len() > 1 {
        let pieces = split_chars(&parts[1], '&');
        let ghost ps = split_on(split_on(path@, '?')[1], '&');
        let mut i: usize = 0;
        while i < pieces.len()
            invariant
                i <= pieces@.len(),
                pieces@.len() == ps.len(),
                ps == split_on(split_on(path@, '?')[1], '&'),
                forall|k: int| 0 <= k < pieces@.len() ==> #[trigger] pieces@[k]@ == ps[k],
                out@.len() == i,
                forall|k: int| 0 <= k < i ==> pair_is(out@[k], #[trigger] split_once_on(ps[k], '=')),
            decreases pieces.len() - i,
        {
            let p = split_once_chars(&pieces[i], '=');
            out.push(p);
            i = i + 1;
        }
    }
    out
}

/// The inspection options that a request path's `options` query pair names
/// (the last such pair wins).
pub fn parse_query_options(path: &str) -> (r: InspectOptions)
    ensures
        r == query_options_after(query_pairs(path@), query_pairs(path@).len() as int),
{
    let pairs = query_pairs_exec(path);
    let mut opts = InspectOptions::default();
    let mut i: usize = 0;
    while i < pairs.len()
        invariant
            i <= pairs@.len(),
            pairs@.len() == query_pairs(path@).len(),
            forall|k: int| 0 <= k < pairs@.len() ==> pair_is(pairs@[k], #[trigger] query_pairs(path@)[k]),
            opts == query_options_after(query_pairs(path@), i as int),
        decreases pairs.len() - i,
    {
        match &pairs[i] {
            Some((k, v)) => {
                if chars_eq_str(k, "options") {
                    opts = parse_inspect_option_chars(v);
                }
            }
            None => {}
        }
        i = i + 1;
    }
    opts
}

/// The log query values: since, until, limit, from sequence number.
pub type LogsQuery = (Option<u64>, Option<u64>, Option<usize>, Option<u64>);

pub open spec fn as_u64(o: Option<nat>) -> Option<u64> {
    match o {
        Some(v) => Some(v as u64),
        None => None,
    }
}

pub open spec fn as_usize(o: Option<nat>) -> Option<usize> {
    match o {
        Some(v) => Some(v as usize),
        None => None,
    }
}

/// The log query values after the first `n` query pairs: each known key
/// replaces its value with the parsed number (or nothing if it does not parse).
pub open spec fn logs_query_after(pairs: Seq<Option<(Seq<char>, Seq<char>)>>, n: int) -> LogsQuery
    decreases n,
{
    if n <= 0 {
        (None, None, None, None)
    } else {
        let q = logs_query_after(pairs, n - 1);
        match pairs[n - 1] {
            Some((k, v)) => if k == "since_ts"@ {
                (as_u64(parse_unsigned(v, u64::MAX as nat)), q.1, q.2, q.3)
            } else if k == "until_ts"@ {
                (q.0, as_u64(parse_unsigned(v, u64::MAX as nat)), q.2, q.3)
            } else if k == "limit"@ {
                (q.0, q.1, as_usize(parse_unsigned(v, usize::MAX as nat)), q.3)
            } else if k == "from_seq"@ {
                (q.0, q.1, q.2, as_u64(parse_unsigned(v, u64::MAX as nat)))
            } else {
                q
            },
            None => q,
        }
    }
}

/// The log query (`since_ts`, `until_ts`, `limit`, `from_seq`) that a
/// request path's query pairs name; the last pair of each key wins.
pub fn parse_logs_query(path: &str) -> (r: LogsQuery)
    ensures
        r == logs_query_after(query_pairs(path@), query_pairs(path@).len() as int),
{
    let pairs = query_pairs_exec(path);
    let mut since: Option<u64> = None;
    let mut until: Option<u64> = None;
    let mut limit: Option<usize> = None;
    let mut from_seq: Option<u64> = None;
    let mut i: usize = 0;
    while i < pairs.len()
        invariant
            i <= pairs@.len(),
            pairs@.len() == query_pairs(path@).len(),
            forall|k: int| 0 <= k < pairs@.len() ==> pair_is(pairs@[k], #[trigger] query_pairs(path@)[k]),
            (since, until, limit, from_seq) == logs_query_after(query_pairs(path@), i as int),
        decreases pairs.len() - i,
    {
        match &pairs[i] {
            Some((k, v)) => {
                if chars_eq_str(k, "since_ts") {
                    since = parse_u64(v);
                } else if chars_eq_str(k, "until_ts") {
                    until = parse_u64(v);
                } else if chars_eq_str(k, "limit") {
                    limit = parse_usize(v);
                } else if chars_eq_str(k, "from_seq") {
                    from_seq = parse_u64(v);
                }
            }
            None => {}
        }
        i = i + 1;
    }
    (since, until, limit, from_seq)
}

/// The WebSocket address of the debug bridge for an HTTP address:
/// `https://h` becomes `wss://h/ws`, `http://h` becomes `ws://h/ws`, a
/// `ws://` or `wss://` address is kept, anything else `h` becomes `ws://h/ws`.
pub open spec fn bridge_ws_url(http: Seq<char>) -> Seq<char> {
    if crate::text::is_prefix("https://"@, http) {
        "wss://"@ + http.skip(8) + "/ws"@
    } else if crate::text::is_prefix("http://"@, http) {
        "ws://"@ + http.skip(7) + "/ws"@
    } else if crate::text::is_prefix("ws://"@, http) || crate::text::is_prefix("wss://"@, http) {
        http
    } else {
        "ws://"@ + http + "/ws"@
    }
}

fn chars_skip(v: &Vec<char>, n: usize) -> (r: String)
    requires
        n <= v@.len(),
    ensures
        r@ == v@.skip(n as int),
{
    let mut out = String::new();
    let mut i: usize = n;
    while i < v.len()
        invariant
            n <= i <= v@.len(),
            out@ == v@.subrange(n as int, i as int),
        decreases v.len() - i,
    {
        crate::text::push_char(&mut out, v[i]);
        assert(v@.subrange(n as int, i + 1) == v@.subrange(n as int, i as int).push(v@[i as int]));
        i = i + 1;
    }
    assert(v@.subrange(n as int, v@.len() as int) == v@.skip(n as int));
    out
}

/// The debug bridge address: the configured HTTP address (the default
/// `http://127.0.0.1:2333` when none is configured) turned into a WebSocket address.
pub fn get_bridge_url(configured: Option<String>) -> (r: Option<String>)
    ensures
        r is Some,
        r->0@ == bridge_ws_url(match configured { Some(s) => s@, None => "http://127.0.0.1:2333"@ }),
{
    let http_url = match configured {
        Some(s) => s,
        None => "http://127.0.0.1:2333".to_owned(),
    };
    let v = chars_of(http_url.as_str());
    let https = chars_of("https://");
    let http = chars_of("http://");
    let ws = chars_of("ws://");
    let wss = chars_of("wss://");
    proof {
        reveal_strlit("https://");
        reveal_strlit("http://");
    }
    if crate::text::starts_with(&v, &https) {
        let mut out = String::new();
        out.append("wss://");
        let host = chars_skip(&v, 8);
        out.append(host.as_str());
        out.append("/ws");
        return Some(out);
    }
    if crate::text::starts_with(&v, &http) {
        let mut out = String::new();
        out.append("ws://");
        let host = chars_skip(&v, 7);
        out.append(host.as_str());
        out.append("/ws");
        return Some(out);
    }
    if crate::text::starts_with(&v, &ws) || crate::text::starts_with(&v, &wss) {
        return Some(http_url);
    }
    let mut out = String::new();
    out.append("ws://");
    out.append(http_url.as_str());
    out.append("/ws");
    Some(out)
}

} // verus!
