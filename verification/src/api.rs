//! The decisions of the HTTP surface: API-key checks, the per-client rate limit,
//! and reading its configuration (comma-separated lists, the port). Serving HTTP
//! stays with the transport.
use vstd::prelude::*;

use crate::schema::string_views;
use crate::strs::{chars_of, opt_str_view, split_pat, split_pat_exec, str_eq, string_of, trim, views};
use crate::text::{nonempty_only, nonempty_trimmed};

verus! {

/// The span of the rate limit, in nanoseconds (sixty seconds).
pub const RATE_LIMIT_WINDOW_NANOS: u64 = 60_000_000_000;

/// Requests a client may make within one window.
pub const RATE_LIMIT_MAX_REQUESTS: usize = 10;

/// The port served when none is configured.
pub const DEFAULT_PORT: u16 = 8080;

/// An HTTP error: status code and message.
#[derive(Debug, Clone)]
pub struct HttpError {
    pub status: u16,
    pub message: String,
}

// ───────────────────────────── API keys ─────────────────────────────

/// The key a request presents: the `Authorization` header's value after
/// `Bearer `, or nothing.
pub open spec fn presented_key(authorization: Option<Seq<char>>) -> Seq<char> {
    match authorization {
        Some(v) => if v.len() >= 7 && v.take(7) == "Bearer "@ {
            v.skip(7)
        } else {
            seq![]
        },
        None => seq![],
    }
}

/// The answer to a request's key: 401 when it presents none, 403 when the key is
/// not allowed, and success otherwise.
pub open spec fn key_check(allowed: Seq<Seq<char>>, authorization: Option<Seq<char>>) -> Result<
    (),
    (u16, Seq<char>),
> {
    let k = presented_key(authorization);
    if k.len() == 0 {
        Err((401, "missing Authorization: Bearer <key> header"@))
    } else if !allowed.contains(k) {
        Err((403, "invalid API key"@))
    } else {
        Ok(())
    }
}

fn bearer_key(authorization: Option<&str>) -> (r: Vec<char>)
    ensures
        r@ == presented_key(opt_str_view(authorization)),
{
    match authorization {
        Some(v) => {
            let c = chars_of(v);
            let p = chars_of("Bearer ");
            proof {
                reveal_strlit("Bearer ");
            }
            if c.len() >= 7 && crate::strs::matches_at(&c, &p, 0) {
                assert(c@.subrange(0, 7) =~= c@.take(7));
                let r = crate::strs::subrange(&c, 7, c.len());
                assert(r@ =~= c@.skip(7));
                r
            } else {
                proof {
                    if c@.len() >= 7 && c@.take(7) == "Bearer "@ {
                        assert(c@.subrange(0, 7) =~= c@.take(7));
                    }
                }
                Vec::new()
            }
        },
        None => Vec::new(),
    }
}

/// Checks the API key a request presents in its `Authorization` header against
/// the allowed keys.
pub fn require_api_key(allowed_keys: &Vec<String>, authorization: Option<&str>) -> (r: Result<
    (),
    HttpError,
>)
    ensures
        match r {
            Ok(()) => key_check(string_views(allowed_keys@), opt_str_view(authorization)) == Ok::<
                (),
                (u16, Seq<char>),
            >(()),
            Err(e) => key_check(string_views(allowed_keys@), opt_str_view(authorization)) == Err::<
                (),
                (u16, Seq<char>),
            >((e.status, e.message@)),
        },
{
    let k = bearer_key(authorization);
    if k.len() == 0 {
        return Err(
            HttpError {
                status: 401,
                message: String::from_str("missing Authorization: Bearer <key> header"),
            },
        );
    }
    let key = string_of(&k);
    let ghost av = string_views(allowed_keys@);
    let mut i: usize = 0;
    while i < allowed_keys.len()
        invariant
            i <= allowed_keys@.len(),
            av == string_views(allowed_keys@),
            key@ == k@,
            k@.len() > 0,
            k@ == presented_key(opt_str_view(authorization)),
            forall|j: int| 0 <= j < i ==> av[j] != k@,
        decreases allowed_keys.len() - i,
    {
        if str_eq(allowed_keys[i].as_str(), key.as_str()) {
            assert(av[i as int] == k@);
            assert(av.contains(k@));
            return Ok(());
        }
        i = i + 1;
    }
    proof {
        if av.contains(k@) {
            let j = choose|j: int| 0 <= j < av.len() && av[j] == k@;
            assert(false);
        }
    }
    Err(HttpError { status: 403, message: String::from_str("invalid API key") })
}

// ───────────────────────────── configuration ─────────────────────────────

/// A comma-separated list: its items trimmed, empty ones left out.
pub open spec fn list_items(s: Seq<char>) -> Seq<Seq<char>> {
    nonempty_only(split_pat(s, seq![',']).map_values(|p: Seq<char>| trim(p)))
}

/// The items of a comma-separated list, trimmed, without empty ones.
pub fn parse_list(s: &str) -> (r: Vec<String>)
    ensures
        string_views(r@) == list_items(s@),
{
    let c = chars_of(s);
    let pieces = split_pat_exec(&c, &[',']);
    assert(([','])@ =~= seq![',']);
    let items = nonempty_trimmed(&pieces);
    let mut r: Vec<String> = Vec::new();
    let mut i: usize = 0;
    while i < items.len()
        invariant
            i <= items@.len(),
            views(items@) == list_items(s@),
            string_views(r@) == views(items@).take(i as int),
        decreases items.len() - i,
    {
        let ghost old_v = string_views(r@);
        r.push(string_of(&items[i]));
        assert(string_views(r@) =~= old_v.push(items@[i as int]@));
        assert(views(items@).take(i + 1) =~= views(items@).take(i as int).push(items@[i as int]@));
        i = i + 1;
    }
    assert(views(items@).take(items@.len() as int) =~= views(items@));
    r
}

/// The value of a run of decimal digits.
pub open spec fn digits_value(s: Seq<char>) -> int
    decreases s.len(),
{
    if s.len() == 0 {
        0
    } else {
        digits_value(s.drop_last()) * 10 + (s.last() as int - '0' as int)
    }
}

pub open spec fn all_digits(s: Seq<char>) -> bool {
    forall|i: int| 0 <= i < s.len() ==> '0' <= #[trigger] s[i] <= '9'
}

/// `str::parse::<u16>`: optional `+`, then one or more decimal digits, with a
/// value that fits.
pub open spec fn u16_text(s: Seq<char>) -> Option<u16> {
    let d = if s.len() > 0 && s[0] == '+' {
        s.drop_first()
    } else {
        s
    };
    if d.len() > 0 && all_digits(d) && digits_value(d) <= 65535 {
        Some(digits_value(d) as u16)
    } else {
        None
    }
}

proof fn lemma_digits_grow(s: Seq<char>, i: int)
    requires
        0 <= i <= s.len(),
        all_digits(s),
    ensures
        digits_value(s) >= digits_value(s.take(i)) >= 0,
    decreases s.len(),
{
    if s.len() > 0 {
        if i == s.len() {
            assert(s.take(i) =~= s);
            lemma_digits_grow(s.drop_last(), s.len() - 1);
            assert(s.drop_last().take(s.len() - 1) =~= s.drop_last());
        } else {
            lemma_digits_grow(s.drop_last(), i);
            assert(s.drop_last().take(i) =~= s.take(i));
        }
    } else {
        assert(s.take(i) =~= s);
    }
}

/// Reads a `u16` as `str::parse` does.
pub fn parse_u16(s: &str) -> (r: Option<u16>)
    ensures
        r == u16_text(s@),
{
    let c = chars_of(s);
    let start: usize = if c.len() > 0 && c[0] == '+' {
        1
    } else {
        0
    };
    let ghost d = if c@.len() > 0 && c@[0] == '+' {
        c@.drop_first()
    } else {
        c@
    };
    assert(d =~= c@.skip(start as int));
    if start >= c.len() {
        return None;
    }
    let mut v: u32 = 0;
    let mut i: usize = start;
    while i < c.len()
        invariant
            start <= i <= c@.len(),
            c@ == s@,
            d == (if c@.len() > 0 && c@[0] == '+' {
                c@.drop_first()
            } else {
                c@
            }),
            d =~= c@.skip(start as int),
            all_digits(d.take(i - start)),
            v == digits_value(d.take(i - start)),
            v <= 65535,
        decreases c.len() - i,
    {
        let ch = c[i];
        let ghost pre = d.take(i - start);
        assert(d.take(i - start + 1) =~= pre.push(ch));
        assert(pre.push(ch).drop_last() =~= pre);
        if ch < '0' || ch > '9' {
            assert(!all_digits(d)) by {
                assert(d[i - start] == ch);
            }
            return None;
        }
        let digit = (ch as u32) - ('0' as u32);
        let nv = v * 10 + digit;
        if nv > 65535 {
            proof {
                if all_digits(d) {
                    lemma_digits_grow(d, i - start + 1);
                }
            }
            return None;
        }
        v = nv;
        i = i + 1;
    }
    assert(d.take(i - start) =~= d);
    Some(v as u16)
}

/// The port to serve: the configured one when it reads as a `u16`, else 8080.
pub fn port_or_default(configured: Option<&str>) -> (r: u16)
    ensures
        r == match opt_str_view(configured) {
            Some(s) => match u16_text(s) {
                Some(p) => p,
                None => DEFAULT_PORT,
            },
            None => DEFAULT_PORT,
        },
{
    match configured {
        Some(s) => match parse_u16(s) {
            Some(p) => p,
            None => DEFAULT_PORT,
        },
        None => DEFAULT_PORT,
    }
}

// ───────────────────────────── rate limit ─────────────────────────────

/// `a - b`, or 0 when `b` is later (as `Instant::duration_since` saturates).
pub open spec fn elapsed(now: u64, then: u64) -> int {
    if now >= then {
        now - then
    } else {
        0
    }
}

/// The times of `ts` that lie within the window before `now`, in order.
pub open spec fn recent(ts: Seq<u64>, now: u64) -> Seq<u64>
    decreases ts.len(),
{
    if ts.len() == 0 {
        seq![]
    } else if elapsed(now, ts.last()) < RATE_LIMIT_WINDOW_NANOS {
        recent(ts.drop_last(), now).push(ts.last())
    } else {
        recent(ts.drop_last(), now)
    }
}

/// Per-client request times, in nanoseconds on one monotonic clock.
pub struct RateLimiter {
    clients: Vec<String>,
    times: Vec<Vec<u64>>,
}

impl RateLimiter {
    /// Each client is listed once, with at most the allowed number of times.
    pub closed spec fn wf(&self) -> bool {
        &&& self.clients@.len() == self.times@.len()
        &&& forall|i: int, j: int|
            0 <= i < j < self.clients@.len() ==> (#[trigger] self.clients@[i])@
                != (#[trigger] self.clients@[j])@
        &&& forall|i: int|
            0 <= i < self.times@.len() ==> (#[trigger] self.times@[i])@.len()
                <= RATE_LIMIT_MAX_REQUESTS
    }

    pub closed spec fn slot(&self, client: Seq<char>) -> int {
        if exists|i: int| 0 <= i < self.clients@.len() && (#[trigger] self.clients@[i])@ == client {
            choose|i: int| 0 <= i < self.clients@.len() && (#[trigger] self.clients@[i])@ == client
        } else {
            -1
        }
    }

    /// The request times kept for `client` (none when it has not been seen).
    pub closed spec fn history(&self, client: Seq<char>) -> Seq<u64> {
        let i = self.slot(client);
        if i >= 0 {
            self.times@[i]@
        } else {
            seq![]
        }
    }

    /// A limiter that has seen no request.
    pub fn new() -> (r: RateLimiter)
        ensures
            r.wf(),
            forall|c: Seq<char>| #[trigger] r.history(c) == Seq::<u64>::empty(),
    {
        RateLimiter { clients: Vec::new(), times: Vec::new() }
    }

    /// No client ever has more than the allowed number of requests remembered, so
    /// none is allowed more than that many within one window.
    pub proof fn law_history_bounded(&self, client: Seq<char>)
        requires
            self.wf(),
        ensures
            self.history(client).len() <= RATE_LIMIT_MAX_REQUESTS,
    {
    }

    fn find(&self, client: &str) -> (r: Option<usize>)
        requires
            self.wf(),
        ensures
            match r {
                Some(k) => k < self.clients@.len() && self.slot(client@) == k,
                None => self.slot(client@) == -1,
            },
    {
        let mut i: usize = 0;
        while i < self.clients.len()
            invariant
                i <= self.clients@.len(),
                self.wf(),
                forall|j: int| 0 <= j < i ==> (#[trigger] self.clients@[j])@ != client@,
            decreases self.clients.len() - i,
        {
            if str_eq(self.clients[i].as_str(), client) {
                proof {
                    let k = self.slot(client@);
                    assert((self.clients@[i as int])@ == client@);
                    if k != i {
                        assert((self.clients@[k])@ == client@);
                        if k < i {
                            assert((self.clients@[k])@ != (self.clients@[i as int])@);
                        } else {
                            assert((self.clients@[i as int])@ != (self.clients@[k])@);
                        }
                    }
                }
                return Some(i);
            }
            i = i + 1;
        }
        None
    }

    /// Records a request from `client` at time `now` and says whether it is
    /// allowed: times older than the window are forgotten, and the request is
    /// allowed (and remembered) when fewer than the allowed number remain.
    pub fn check(&mut self, client: &str, now: u64) -> (allowed: bool)
        requires
            old(self).wf(),
        ensures
            final(self).wf(),
            allowed == (recent(old(self).history(client@), now).len() < RATE_LIMIT_MAX_REQUESTS),
            final(self).history(client@) == if allowed {
                recent(old(self).history(client@), now).push(now)
            } else {
                recent(old(self).history(client@), now)
            },
            forall|c: Seq<char>| c != client@ ==> #[trigger] final(self).history(c) == old(self).history(c),
    {
        match self.find(client) {
            Some(k) => {
                let ghost old_self = *self;
                let ts = &self.times[k];
                let ghost h = ts@;
                let mut kept: Vec<u64> = Vec::new();
                let mut i: usize = 0;
                while i < ts.len()
                    invariant
                        i <= ts@.len(),
                        h == ts@,
                        kept@ == recent(h.take(i as int), now),
                        kept@.len() <= i,
                    decreases ts.len() - i,
                {
                    assert(h.take(i + 1).drop_last() =~= h.take(i as int));
                    let t = ts[i];
                    let e = if now >= t {
                        now - t
                    } else {
                        0
                    };
                    if e < RATE_LIMIT_WINDOW_NANOS {
                        kept.push(t);
                    }
                    i = i + 1;
                }
                assert(h.take(h.len() as int) =~= h);
                let allowed = kept.len() < RATE_LIMIT_MAX_REQUESTS;
                if allowed {
                    kept.push(now);
                }
                self.times.set(k, kept);
                proof {
                    assert forall|c: Seq<char>| c != client@ implies #[trigger] self.history(c)
                        == old_self.history(c) by {
                        assert(self.clients@ == old_self.clients@);
                        if old_self.slot(c) >= 0 {
                            assert(old_self.slot(c) != k);
                        }
                    }
                }
                allowed
            },
            None => {
                let ghost old_self = *self;
                let mut kept: Vec<u64> = Vec::new();
                kept.push(now);
                self.clients.push(String::from_str(client));
                self.times.push(kept);
                proof {
                    let n = old_self.clients@.len() as int;
                    assert((self.clients@[n])@ == client@);
                    assert forall|i: int, j: int|
                        0 <= i < j < self.clients@.len() implies (#[trigger] self.clients@[i])@
                        != (#[trigger] self.clients@[j])@ by {
                        if j == n {
                            assert(self.clients@[i] == old_self.clients@[i]);
                        } else {
                            assert(self.clients@[i] == old_self.clients@[i]);
                            assert(self.clients@[j] == old_self.clients@[j]);
                        }
                    }
                    assert(self.slot(client@) == n);
                    assert(recent(Seq::<u64>::empty(), now) =~= Seq::<u64>::empty());
                    assert forall|c: Seq<char>| c != client@ implies #[trigger] self.history(c)
                        == old_self.history(c) by {
                        if old_self.slot(c) >= 0 {
                            let i = old_self.slot(c);
                            assert(self.clients@[i] == old_self.clients@[i]);
                            assert(self.slot(c) == i);
                        } else {
                            if self.slot(c) >= 0 {
                                let i = self.slot(c);
                                if i < n {
                                    assert(self.clients@[i] == old_self.clients@[i]);
                                }
                            }
                        }
                    }
                }
                true
            },
        }
    }
}

} // verus!
