//! Connect mode: Portal dials the Hearth relay over a WebSocket (the reverse
//! path for NAT traversal). This module holds the decisions of that mode: the
//! Loom link, the relay URL, the handshake, the heartbeat and the reconnect
//! backoff. The relay endpoint is `wss://host/_relay`, derived from the Loom URL.
use vstd::prelude::*;
use crate::json_text::{json_quoted, json_string};
use crate::text::{
    chars_of, find_char, find_char_vec, has_char, is_ws, lemma_find_char, lemma_find_first, lemma_split_at_sep,
    lemma_split_plain, occurs_at, one_of, skip_ws, split_any, split_any_vec, split_on,
    string_of_range, trim, trim_end_ws, trim_str, views,
};

verus! {

/// Portal → relay JSON keepalive interval, in seconds.
pub const HEARTBEAT_INTERVAL_SECS: u64 = 15;
/// If no relay frame is received within this window, reconnect.
pub const HEARTBEAT_TIMEOUT_SECS: u64 = 90;
/// Reconnect backoff floor (also the reset value).
pub const BACKOFF_MIN_SECS: u64 = 2;
/// Reconnect backoff ceiling.
pub const BACKOFF_MAX_SECS: u64 = 30;
/// A session living longer than this counts as healthy: its error is a normal
/// session end (heartbeat timeout), not a connect failure, so backoff resets.
pub const HEALTHY_SESSION_SECS: u64 = 60;

/// The part of `s` before its first `c` (all of `s` when there is none).
pub open spec fn before_char(s: Seq<char>, c: char) -> Seq<char> {
    if has_char(s, c) {
        s.take(find_char(s, c))
    } else {
        s
    }
}

/// The part of `s` after its first `c` (empty when there is none).
pub open spec fn after_char(s: Seq<char>, c: char) -> Seq<char> {
    if has_char(s, c) {
        s.skip(find_char(s, c) + 1)
    } else {
        Seq::empty()
    }
}

/// The first non-empty piece.
pub open spec fn first_nonempty(pieces: Seq<Seq<char>>) -> Option<Seq<char>>
    decreases pieces.len(),
{
    if pieces.len() == 0 {
        None
    } else if pieces[0].len() > 0 {
        Some(pieces[0])
    } else {
        first_nonempty(pieces.drop_first())
    }
}

/// The value of the first `key=value` pair whose key is `token`.
pub open spec fn token_value(pairs: Seq<Seq<char>>) -> Option<Seq<char>>
    decreases pairs.len(),
{
    if pairs.len() == 0 {
        None
    } else if has_char(pairs[0], '=') && before_char(pairs[0], '=') == "token"@ {
        Some(after_char(pairs[0], '='))
    } else {
        token_value(pairs.drop_first())
    }
}

/// The link without its `https://` or `http://` scheme.
pub open spec fn without_scheme(s: Seq<char>) -> Option<Seq<char>> {
    if s.len() >= 8 && s.take(8) == "https://"@ {
        Some(s.skip(8))
    } else if s.len() >= 7 && s.take(7) == "http://"@ {
        Some(s.skip(7))
    } else {
        None
    }
}

/// Why a Loom link was refused.
#[derive(Clone, Copy, Debug, PartialEq, Eq, Structural)]
pub enum LoomLinkError {
    NotHttp,
    MissingBeing,
    MissingToken,
}

impl LoomLinkError {
    /// The message shown to the operator.
    pub fn message(&self) -> (r: &'static str)
        ensures
            *self == LoomLinkError::NotHttp ==> r@ == "Loom link must start with http:// or https://"@,
            *self == LoomLinkError::MissingBeing ==> r@ == "missing being id in URL path"@,
            *self == LoomLinkError::MissingToken ==> r@ == "missing token query parameter"@,
    {
        match self {
            LoomLinkError::NotHttp => "Loom link must start with http:// or https://",
            LoomLinkError::MissingBeing => "missing being id in URL path",
            LoomLinkError::MissingToken => "missing token query parameter",
        }
    }
}

/// A Loom link `http[s]://host[:port]/being/?token=...` read as
/// (host with port, being id, token): the link is trimmed; the host runs to
/// the first `/`; the being id is the first non-empty path segment; the
/// token is the value of the first `token=` pair of the query.
pub open spec fn loom_link_spec(s: Seq<char>) -> Result<(Seq<char>, Seq<char>, Seq<char>), LoomLinkError> {
    match without_scheme(trim(s)) {
        None => Err(LoomLinkError::NotHttp),
        Some(rest) => {
            let host = before_char(rest, '/');
            let path_and_query = after_char(rest, '/');
            let path = before_char(path_and_query, '?');
            let query = after_char(path_and_query, '?');
            match first_nonempty(split_any(path, seq!['/'])) {
                None => Err(LoomLinkError::MissingBeing),
                Some(being) => match token_value(split_any(query, seq!['&'])) {
                    None => Err(LoomLinkError::MissingToken),
                    Some(token) => Ok((host, being, token)),
                },
            }
        },
    }
}

/// A text with no `c` is one piece when split at `c`.
proof fn lemma_one_piece(p: Seq<char>, c: char)
    requires
        !has_char(p, c),
    ensures
        split_on(p, one_of(seq![c])) == seq![p],
{
    let sep = one_of(seq![c]);
    assert forall|k: int| 0 <= k < p.len() implies !sep(#[trigger] p[k]) by {
        if sep(p[k]) {
            let idx = choose|idx: int| 0 <= idx < 1 && seq![c][idx] == p[k];
            assert(p[k] == c);
        }
    }
    lemma_split_plain(Seq::empty(), p, sep);
    assert(Seq::<char>::empty() + p =~= p);
}

/// The pair `token=v` read as the token `v`.
proof fn lemma_token_pair(v: Seq<char>)
    ensures
        has_char("token="@ + v, '='),
        before_char("token="@ + v, '=') == "token"@,
        after_char("token="@ + v, '=') == v,
{
    reveal_strlit("token=");
    reveal_strlit("token");
    let t = "token"@;
    assert(!has_char(t, '=')) by {
        assert forall|k: int| 0 <= k < t.len() implies t[k] != '=' by {}
    }
    assert("token="@ + v =~= t + seq!['='] + v);
    lemma_find_first(t, '=', v);
    assert(("token="@ + v).take(5) =~= t);
    assert(("token="@ + v).skip(6) =~= v);
}

/// A query `pre` + `token=v` + `tail`, where `pre` is whole pairs each
/// followed by `&` and none of them a `token=` pair, and `tail` is empty or
/// starts a new pair, has the token `v`.
proof fn lemma_token_in_query(pre: Seq<char>, v: Seq<char>, tail: Seq<char>)
    requires
        pre.len() == 0 || pre.last() == '&',
        forall|k: int|
            0 <= k < pre.len() && (k == 0 || pre[k - 1] == '&') ==> !occurs_at(pre, "token="@, k),
        !has_char(v, '&'),
        tail.len() == 0 || tail[0] == '&',
    ensures
        token_value(split_any(pre + "token="@ + v + tail, seq!['&'])) == Some(v),
    decreases pre.len(),
{
    reveal_strlit("token=");
    reveal_strlit("token");
    let sep = one_of(seq!['&']);
    assert(sep('&')) by {
        assert(seq!['&'][0] == '&');
    }
    let p = "token="@ + v;
    lemma_token_pair(v);
    assert(!has_char(p, '&')) by {
        assert forall|k: int| 0 <= k < p.len() implies p[k] != '&' by {
            if k >= 6 {
                assert(p[k] == v[k - 6]);
            }
        }
    }
    if pre.len() == 0 {
        let q = pre + "token="@ + v + tail;
        lemma_one_piece(p, '&');
        if tail.len() == 0 {
            assert(q =~= p);
        } else {
            let t2 = tail.drop_first();
            assert(q =~= p + seq!['&'] + t2);
            lemma_split_at_sep(p, '&', t2, sep);
            let pairs = split_any(q, seq!['&']);
            assert(pairs[0] == p);
        }
    } else {
        lemma_find_char(pre, '&');
        assert(has_char(pre, '&')) by {
            assert(pre[pre.len() - 1] == '&');
        }
        let j = find_char(pre, '&');
        let x = pre.take(j);
        let pre2 = pre.skip(j + 1);
        assert(!has_char(x, '&')) by {
            assert forall|k: int| 0 <= k < x.len() implies x[k] != '&' by {
                assert(x[k] == pre[k]);
            }
        }
        let rest = pre2 + "token="@ + v + tail;
        assert(pre + "token="@ + v + tail =~= x + seq!['&'] + rest);
        lemma_split_at_sep(x, '&', rest, sep);
        lemma_one_piece(x, '&');
        // `x` is not a `token=` pair.
        if has_char(x, '=') && before_char(x, '=') == "token"@ {
            lemma_find_char(x, '=');
            assert(before_char(x, '=') == x.take(find_char(x, '=')));
            assert(x.take(find_char(x, '=')).len() == find_char(x, '='));
            assert(find_char(x, '=') == 5);
            assert(pre.subrange(0, 6) =~= "token="@) by {
                assert forall|k: int| 0 <= k < 6 implies pre[k] == "token="@[k] by {
                    if k < 5 {
                        assert(pre[k] == x.take(5)[k]);
                    } else {
                        assert(pre[k] == x[5]);
                    }
                }
            }
            assert(occurs_at(pre, "token="@, 0));
        }
        // The pairs after `x` meet the same conditions.
        assert forall|k: int|
            0 <= k < pre2.len() && (k == 0 || pre2[k - 1] == '&') implies !occurs_at(
            pre2,
            "token="@,
            k,
        ) by {
            let kk = k + j + 1;
            assert(pre[kk - 1] == '&');
            if occurs_at(pre2, "token="@, k) {
                assert(pre.subrange(kk, kk + 6) =~= pre2.subrange(k, k + 6));
                assert(occurs_at(pre, "token="@, kk));
            }
        }
        if pre2.len() > 0 {
            assert(pre2.last() == pre.last());
        }
        lemma_token_in_query(pre2, v, tail);
        let pairs = split_any(pre + "token="@ + v + tail, seq!['&']);
        assert(pairs =~= seq![x] + split_any(rest, seq!['&']));
        assert(pairs.drop_first() =~= split_any(rest, seq!['&']));
    }
}

/// A link that starts with `h` and does not end in whitespace is trimmed.
proof fn lemma_link_trimmed(link: Seq<char>)
    requires
        link.len() > 0,
        link[0] == 'h',
        !is_ws(link.last()),
    ensures
        trim(link) == link,
{
    assert(!is_ws('h'));
    assert(skip_ws(link) == link);
    assert(trim_end_ws(link) == link);
}

/// `being/?q`, with a non-empty `being` holding no `/` or `?`, has the
/// path segment `being` first and the query `q`.
proof fn lemma_path_and_query(pq: Seq<char>, being: Seq<char>, q: Seq<char>)
    requires
        pq == being + "/?"@ + q,
        being.len() > 0,
        !has_char(being, '/'),
        !has_char(being, '?'),
    ensures
        first_nonempty(split_any(before_char(pq, '?'), seq!['/'])) == Some(being),
        after_char(pq, '?') == q,
{
    reveal_strlit("/?");
    let bs = being + seq!['/'];
    assert(!has_char(bs, '?')) by {
        assert forall|k: int| 0 <= k < bs.len() implies bs[k] != '?' by {
            if k < being.len() {
                assert(bs[k] == being[k]);
            }
        }
    }
    assert(pq =~= bs + seq!['?'] + q);
    lemma_find_first(bs, '?', q);
    assert(before_char(pq, '?') =~= bs);
    assert(after_char(pq, '?') =~= q);
    let slash = one_of(seq!['/']);
    assert(slash('/')) by {
        assert(seq!['/'][0] == '/');
    }
    assert(bs =~= being + seq!['/'] + Seq::<char>::empty());
    lemma_split_at_sep(being, '/', Seq::<char>::empty(), slash);
    lemma_one_piece(being, '/');
    lemma_one_piece(Seq::<char>::empty(), '/');
    assert(split_any(bs, seq!['/']) =~= seq![being, Seq::<char>::empty()]);
    let segs = split_any(bs, seq!['/']);
    assert(segs[0] == being);
}

/// A Loom link `https://host/being/?query` whose query holds a `token=v`
/// pair parses to (`host`, `being`, `v`), wherever that pair stands among
/// the `&`-separated pairs: `pre` is the pairs before it, each followed by
/// `&` and none of them a `token=` pair, and `tail` is the pairs after it.
pub proof fn lemma_token_found_anywhere(
    link: Seq<char>,
    host: Seq<char>,
    being: Seq<char>,
    pre: Seq<char>,
    v: Seq<char>,
    tail: Seq<char>,
)
    requires
        link == "https://"@ + host + "/"@ + being + "/?"@ + pre + "token="@ + v + tail,
        !is_ws(link.last()),
        !has_char(host, '/'),
        being.len() > 0,
        !has_char(being, '/'),
        !has_char(being, '?'),
        pre.len() == 0 || pre.last() == '&',
        forall|k: int|
            0 <= k < pre.len() && (k == 0 || pre[k - 1] == '&') ==> !occurs_at(pre, "token="@, k),
        !has_char(v, '&'),
        tail.len() == 0 || tail[0] == '&',
    ensures
        loom_link_spec(link) == Ok::<(Seq<char>, Seq<char>, Seq<char>), LoomLinkError>(
            (host, being, v),
        ),
{
    reveal_strlit("https://");
    reveal_strlit("/");
    let q = pre + "token="@ + v + tail;
    let pq = being + "/?"@ + q;
    assert(link =~= "https://"@ + (host + seq!['/'] + pq));
    assert(link[0] == 'h');
    lemma_link_trimmed(link);
    let rest = link.skip(8);
    assert(link.take(8) =~= "https://"@);
    assert(rest =~= host + seq!['/'] + pq);
    assert(without_scheme(trim(link)) == Some(rest));
    lemma_find_first(host, '/', pq);
    assert(before_char(rest, '/') =~= host);
    assert(after_char(rest, '/') =~= pq);
    lemma_path_and_query(pq, being, q);
    lemma_token_in_query(pre, v, tail);
}

/// `cs[from..to]` split at the first `c`: the index of that `c`, or `to`.
fn split_point(cs: &Vec<char>, from: usize, to: usize, c: char) -> (r: usize)
    requires
        from <= to <= cs.len(),
    ensures
        from <= r <= to,
        r < to ==> has_char(cs@.subrange(from as int, to as int), c) && find_char(
            cs@.subrange(from as int, to as int),
            c,
        ) == r - from,
        r == to ==> !has_char(cs@.subrange(from as int, to as int), c),
{
    let mut i = from;
    while i < to
        invariant
            from <= i <= to <= cs.len(),
            forall|k: int| from <= k < i ==> cs@[k] != c,
        decreases to - i,
    {
        if cs[i] == c {
            proof {
                let s = cs@.subrange(from as int, to as int);
                crate::text::lemma_find_char(s, c);
                assert(s[i - from] == c);
                let f = find_char(s, c);
                if f < i - from {
                    assert(s[f] == cs@[from + f]);
                }
            }
            return i;
        }
        i += 1;
    }
    proof {
        let s = cs@.subrange(from as int, to as int);
        if has_char(s, c) {
            let j = choose|j: int| 0 <= j < s.len() && s[j] == c;
            assert(s[j] == cs@[from + j]);
        }
    }
    to
}

/// The first non-empty string of `pieces`.
fn first_nonempty_of(pieces: &Vec<String>) -> (r: Option<String>)
    ensures
        match first_nonempty(views(pieces@)) {
            Some(p) => r matches Some(s) && s@ == p,
            None => r is None,
        },
{
    let mut i: usize = 0;
    proof {
        assert(views(pieces@).skip(0) =~= views(pieces@));
    }
    while i < pieces.len()
        invariant
            i <= pieces.len(),
            first_nonempty(views(pieces@)) == first_nonempty(views(pieces@).skip(i as int)),
        decreases pieces.len() - i,
    {
        let ghost rest = views(pieces@).skip(i as int);
        assert(rest[0] == pieces@[i as int]@);
        assert(rest.drop_first() =~= views(pieces@).skip(i + 1));
        if !pieces[i].as_str().is_empty() {
            return Some(pieces[i].clone());
        }
        i += 1;
    }
    None
}

/// The value of the first `token=` pair of `pairs`.
fn token_of(pairs: &Vec<String>) -> (r: Option<String>)
    ensures
        match token_value(views(pairs@)) {
            Some(t) => r matches Some(s) && s@ == t,
            None => r is None,
        },
{
    let mut i: usize = 0;
    proof {
        assert(views(pairs@).skip(0) =~= views(pairs@));
        reveal_strlit("token");
    }
    while i < pairs.len()
        invariant
            i <= pairs.len(),
            token_value(views(pairs@)) == token_value(views(pairs@).skip(i as int)),
        decreases pairs.len() - i,
    {
        let ghost rest = views(pairs@).skip(i as int);
        assert(rest[0] == pairs@[i as int]@);
        assert(rest.drop_first() =~= views(pairs@).skip(i + 1));
        let cs = chars_of(pairs[i].as_str());
        let n = cs.len();
        let eq = split_point(&cs, 0, n, '=');
        assert(cs@.subrange(0, n as int) =~= cs@);
        if eq < n {
            let is_token = eq == 5 && cs[0] == 't' && cs[1] == 'o' && cs[2] == 'k' && cs[3] == 'e'
                && cs[4] == 'n';
            proof {
                reveal_strlit("token");
                if is_token {
                    assert(cs@.take(5) =~= "token"@);
                }
                if cs@.take(eq as int) == "token"@ {
                    assert(cs@.take(eq as int).len() == 5);
                    assert(cs@.take(5)[0] == 't' && cs@.take(5)[1] == 'o' && cs@.take(5)[2] == 'k'
                        && cs@.take(5)[3] == 'e' && cs@.take(5)[4] == 'n');
                }
            }
            if is_token {
                let v = string_of_range(&cs, eq + 1, n);
                assert(cs@.subrange(eq + 1, n as int) =~= cs@.skip(eq + 1));
                return Some(v);
            }
        }
        i += 1;
    }
    None
}

/// Parse a Loom link: `https://host[:port]/being/?token=...` → (host_with_port, being_id, token).
pub fn parse_loom_link(s: &str) -> (r: Result<(String, String, String), LoomLinkError>)
    ensures
        match loom_link_spec(s@) {
            Ok((h, b, t)) => r matches Ok((host, being, token)) && host@ == h && being@ == b
                && token@ == t,
            Err(e) => r == Err::<(String, String, String), LoomLinkError>(e),
        },
{
    let trimmed = trim_str(s);
    let cs = chars_of(trimmed.as_str());
    let n = cs.len();
    proof {
        reveal_strlit("https://");
        reveal_strlit("http://");
    }
    let https = n >= 8 && cs[0] == 'h' && cs[1] == 't' && cs[2] == 't' && cs[3] == 'p' && cs[4]
        == 's' && cs[5] == ':' && cs[6] == '/' && cs[7] == '/';
    let http = n >= 7 && cs[0] == 'h' && cs[1] == 't' && cs[2] == 't' && cs[3] == 'p' && cs[4]
        == ':' && cs[5] == '/' && cs[6] == '/';
    proof {
        if https {
            assert(cs@.take(8) =~= "https://"@);
        } else if n >= 8 && cs@.take(8) == "https://"@ {
            assert(cs@.take(8)[0] == 'h' && cs@.take(8)[1] == 't' && cs@.take(8)[2] == 't'
                && cs@.take(8)[3] == 'p' && cs@.take(8)[4] == 's' && cs@.take(8)[5] == ':'
                && cs@.take(8)[6] == '/' && cs@.take(8)[7] == '/');
        }
        if http {
            assert(cs@.take(7) =~= "http://"@);
        } else if n >= 7 && cs@.take(7) == "http://"@ {
            assert(cs@.take(7)[0] == 'h' && cs@.take(7)[1] == 't' && cs@.take(7)[2] == 't'
                && cs@.take(7)[3] == 'p' && cs@.take(7)[4] == ':' && cs@.take(7)[5] == '/'
                && cs@.take(7)[6] == '/');
        }
    }
    let start: usize = if https {
        8
    } else if http {
        7
    } else {
        return Err(LoomLinkError::NotHttp);
    };
    let ghost rest = cs@.skip(start as int);
    assert(cs@.subrange(start as int, n as int) =~= rest);
    let slash = split_point(&cs, start, n, '/');
    let host = string_of_range(&cs, start, slash);
    let pq_start = if slash < n {
        slash + 1
    } else {
        n
    };
    proof {
        assert(cs@.subrange(start as int, slash as int) =~= before_char(rest, '/'));
        assert(cs@.subrange(pq_start as int, n as int) =~= after_char(rest, '/'));
    }
    let ghost pq = cs@.subrange(pq_start as int, n as int);
    let qmark = split_point(&cs, pq_start, n, '?');
    let q_start = if qmark < n {
        qmark + 1
    } else {
        n
    };
    let path: Vec<char> = {
        let p = string_of_range(&cs, pq_start, qmark);
        chars_of(p.as_str())
    };
    let query: Vec<char> = {
        let q = string_of_range(&cs, q_start, n);
        chars_of(q.as_str())
    };
    proof {
        assert(path@ =~= before_char(pq, '?'));
        assert(query@ =~= after_char(pq, '?'));
    }
    let slash_sep = vec!['/'];
    let amp_sep = vec!['&'];
    assert(slash_sep@ =~= seq!['/']);
    assert(amp_sep@ =~= seq!['&']);
    let segments = split_any_vec(&path, &slash_sep);
    let being = match first_nonempty_of(&segments) {
        Some(b) => b,
        None => return Err(LoomLinkError::MissingBeing),
    };
    let pairs = split_any_vec(&query, &amp_sep);
    let token = match token_of(&pairs) {
        Some(t) => t,
        None => return Err(LoomLinkError::MissingToken),
    };
    Ok((host, being, token))
}

/// `wss://host/_relay`, or `ws://host/_relay` for a host that starts with
/// `localhost` or `127.` (local testing).
pub open spec fn relay_url_spec(host: Seq<char>) -> Seq<char> {
    let local = (host.len() >= 9 && host.take(9) == "localhost"@) || (host.len() >= 4 && host.take(
        4,
    ) == "127."@);
    (if local {
        "ws"@
    } else {
        "wss"@
    }) + "://"@ + host + "/_relay"@
}

/// Derive WebSocket relay URL from Loom host.
/// `echo.beings.town` → `wss://echo.beings.town/_relay`
/// `localhost:3100` (http) → `ws://localhost:3100/_relay`  (for local testing)
pub fn derive_relay_url(loom_link: &str, host: &str) -> (r: String)
    ensures
        r@ == relay_url_spec(host@),
{
    let cs = chars_of(host);
    let n = cs.len();
    proof {
        reveal_strlit("localhost");
        reveal_strlit("127.");
    }
    let localhost = n >= 9 && cs[0] == 'l' && cs[1] == 'o' && cs[2] == 'c' && cs[3] == 'a' && cs[4]
        == 'l' && cs[5] == 'h' && cs[6] == 'o' && cs[7] == 's' && cs[8] == 't';
    let loopback = n >= 4 && cs[0] == '1' && cs[1] == '2' && cs[2] == '7' && cs[3] == '.';
    proof {
        if localhost {
            assert(cs@.take(9) =~= "localhost"@);
        } else if n >= 9 && cs@.take(9) == "localhost"@ {
            assert(cs@.take(9)[0] == 'l' && cs@.take(9)[1] == 'o' && cs@.take(9)[2] == 'c'
                && cs@.take(9)[3] == 'a' && cs@.take(9)[4] == 'l' && cs@.take(9)[5] == 'h'
                && cs@.take(9)[6] == 'o' && cs@.take(9)[7] == 's' && cs@.take(9)[8] == 't');
        }
        if loopback {
            assert(cs@.take(4) =~= "127."@);
        } else if n >= 4 && cs@.take(4) == "127."@ {
            assert(cs@.take(4)[0] == '1' && cs@.take(4)[1] == '2' && cs@.take(4)[2] == '7'
                && cs@.take(4)[3] == '.');
        }
    }
    let mut out = if localhost || loopback {
        String::from_str("ws")
    } else {
        String::from_str("wss")
    };
    out.append("://");
    out.append(host);
    out.append("/_relay");
    out
}

/// The next backoff: double `secs` (saturating), clamped to
/// `[BACKOFF_MIN_SECS, BACKOFF_MAX_SECS]`.
pub open spec fn next_backoff_spec(secs: u64) -> u64 {
    let doubled = if 2 * secs > u64::MAX {
        u64::MAX as int
    } else {
        2 * secs
    };
    if doubled < BACKOFF_MIN_SECS {
        BACKOFF_MIN_SECS
    } else if doubled > BACKOFF_MAX_SECS {
        BACKOFF_MAX_SECS
    } else {
        doubled as u64
    }
}

/// Double the backoff, clamped to `[BACKOFF_MIN_SECS, BACKOFF_MAX_SECS]`.
pub fn next_backoff(backoff_secs: u64) -> (r: u64)
    ensures
        r == next_backoff_spec(backoff_secs),
        BACKOFF_MIN_SECS <= r <= BACKOFF_MAX_SECS,
{
    let doubled: u64 = if backoff_secs > u64::MAX / 2 {
        u64::MAX
    } else {
        backoff_secs * 2
    };
    if doubled < BACKOFF_MIN_SECS {
        BACKOFF_MIN_SECS
    } else if doubled > BACKOFF_MAX_SECS {
        BACKOFF_MAX_SECS
    } else {
        doubled
    }
}

/// The backoff to wait after a session: back to the floor when the session
/// ended cleanly or lived longer than `HEALTHY_SESSION_SECS` (the link was
/// fine), else the current one.
pub fn backoff_after_session(ended_cleanly: bool, session_secs: u64, backoff_secs: u64) -> (r: u64)
    ensures
        r == if ended_cleanly || session_secs > HEALTHY_SESSION_SECS {
            BACKOFF_MIN_SECS
        } else {
            backoff_secs
        },
{
    if ended_cleanly || session_secs > HEALTHY_SESSION_SECS {
        BACKOFF_MIN_SECS
    } else {
        backoff_secs
    }
}

/// The relay handshake: the JSON object with `being_id`, `loom_token` and
/// `portal_name` (`portal_name` identifies this Portal instance).
pub open spec fn handshake_text(being_id: Seq<char>, loom_token: Seq<char>, portal_name: Seq<char>) -> Seq<char> {
    "{\"being_id\":"@ + json_quoted(being_id) + ",\"loom_token\":"@ + json_quoted(loom_token)
        + ",\"portal_name\":"@ + json_quoted(portal_name) + "}"@
}

/// Build relay handshake JSON (`portal_name` identifies this Portal instance).
pub fn relay_handshake_json(being_id: &str, loom_token: &str, portal_name: &str) -> (r: String)
    ensures
        r@ == handshake_text(being_id@, loom_token@, portal_name@),
{
    let mut out = String::from_str("{\"being_id\":");
    out.append(json_string(being_id).as_str());
    out.append(",\"loom_token\":");
    out.append(json_string(loom_token).as_str());
    out.append(",\"portal_name\":");
    out.append(json_string(portal_name).as_str());
    out.append("}");
    out
}

/// The relay's answer to the handshake, as read from its JSON.
#[derive(Clone, Debug)]
pub struct HandshakeResponse {
    pub ok: bool,
    pub relay_keepalive: Option<String>,
}

/// How this session keeps the relay link alive.
#[derive(Clone, Copy, Debug, PartialEq, Eq, Structural)]
pub enum KeepaliveMode {
    /// `{"type":"keepalive"}` text frames, acknowledged by the relay.
    TextV1,
    /// WebSocket pings.
    Ping,
}

/// The text keepalive the relay offers as `relay_keepalive`.
pub open spec fn text_keepalive_tag() -> Seq<char> {
    "text-v1"@
}

/// Accepts a handshake answer: `None` when the relay refused; otherwise
/// text keepalives when it offers `text-v1`, pings else.
pub fn handshake_outcome(resp: &HandshakeResponse) -> (r: Option<KeepaliveMode>)
    ensures
        !resp.ok ==> r is None,
        resp.ok ==> r == Some(
            if resp.relay_keepalive matches Some(k) && k@ == text_keepalive_tag() {
                KeepaliveMode::TextV1
            } else {
                KeepaliveMode::Ping
            },
        ),
{
    if !resp.ok {
        return None;
    }
    match &resp.relay_keepalive {
        Some(k) => {
            let wanted = String::from_str("text-v1");
            if *k == wanted {
                Some(KeepaliveMode::TextV1)
            } else {
                Some(KeepaliveMode::Ping)
            }
        },
        None => Some(KeepaliveMode::Ping),
    }
}

/// The prefix of the relay's acknowledgement of a text keepalive.
pub open spec fn keepalive_ack_prefix() -> Seq<char> {
    "{\"type\":\"keepalive_ack\""@
}

/// Whether an inbound text frame is a keepalive acknowledgement (never
/// passed on to the MCP handler).
pub fn is_keepalive_ack(frame: &str) -> (r: bool)
    ensures
        r == (frame@.len() >= keepalive_ack_prefix().len() && frame@.take(
            keepalive_ack_prefix().len() as int,
        ) == keepalive_ack_prefix()),
{
    let cs = chars_of(frame);
    let p = chars_of("{\"type\":\"keepalive_ack\"");
    if cs.len() < p.len() {
        return false;
    }
    let mut i: usize = 0;
    while i < p.len()
        invariant
            i <= p.len() <= cs.len(),
            cs@ == frame@,
            p@ == keepalive_ack_prefix(),
            forall|k: int| 0 <= k < i ==> cs@[k] == p@[k],
        decreases p.len() - i,
    {
        if cs[i] != p[i] {
            assert(cs@.take(p.len() as int)[i as int] != p@[i as int]);
            return false;
        }
        i += 1;
    }
    assert(cs@.take(p.len() as int) =~= p@);
    true
}

/// The text keepalive frame.
pub fn keepalive_frame() -> (r: &'static str)
    ensures
        r@ == "{\"type\":\"keepalive\"}"@,
{
    "{\"type\":\"keepalive\"}"
}

/// Whether the link is dead: nothing heard for more than `HEARTBEAT_TIMEOUT_SECS`.
pub fn heartbeat_expired(silent_secs: u64) -> (r: bool)
    ensures
        r == (silent_secs > HEARTBEAT_TIMEOUT_SECS),
{
    silent_secs > HEARTBEAT_TIMEOUT_SECS
}

/// What a line from the MCP handler becomes on the WebSocket: its trimmed
/// text, or nothing when that is empty.
pub fn outbound_frame(line: &str) -> (r: Option<String>)
    ensures
        trim(line@).len() == 0 ==> r is None,
        trim(line@).len() > 0 ==> (r matches Some(t) && t@ == trim(line@)),
{
    let t = trim_str(line);
    if t.as_str().is_empty() {
        None
    } else {
        Some(t)
    }
}

/// The name Portal gives the relay: the `--portal-name` option, else a
/// configured name other than the generic `portal`, else `fallback`.
pub open spec fn relay_name_choice(cli: Option<Seq<char>>, config_name: Seq<char>) -> Option<Seq<char>> {
    match cli {
        Some(n) => Some(n),
        None => if config_name.len() > 0 && config_name != "portal"@ {
            Some(config_name)
        } else {
            None
        },
    }
}

/// Picks the relay name: `cli_portal_name`, else `config_name` unless it is
/// empty or `portal`, else what `fallback` gives.
pub fn relay_portal_name<F: FnOnce() -> String>(
    cli_portal_name: Option<String>,
    config_name: &str,
    fallback: F,
) -> (r: String)
    requires
        fallback.requires(()),
    ensures
        match relay_name_choice(
            match cli_portal_name {
                Some(n) => Some(n@),
                None => None,
            },
            config_name@,
        ) {
            Some(n) => r@ == n,
            None => fallback.ensures((), r),
        },
{
    match cli_portal_name {
        Some(n) => n,
        None => {
            let generic = String::from_str("portal");
            let name = String::from_str(config_name);
            if !config_name.is_empty() && !(name == generic) {
                name
            } else {
                fallback()
            }
        },
    }
}

/// This machine's host name, when it has one that is valid UTF-8
/// (`hostname::get`). It depends on the machine; nothing is stated of it.
#[verifier::external_body]
fn machine_hostname() -> (r: Option<String>) {
    hostname::get().ok().and_then(|h| h.into_string().ok())
}

/// The relay name used when nothing else names this Portal: the host name,
/// else `portal`.
pub fn name_or_portal(host: Option<String>) -> (r: String)
    ensures
        match host {
            Some(h) => r@ == h@,
            None => r@ == "portal"@,
        },
{
    match host {
        Some(h) => h,
        None => String::from_str("portal"),
    }
}

/// The machine's host name, or `portal` (through `name_or_portal`). The host
/// name depends on the machine, so nothing is stated of the result.
pub fn default_relay_portal_name() -> String {
    name_or_portal(machine_hostname())
}

} // verus!
