//! Mirrored acquisition policy: candidate URLs are tried in order, a
//! response counts only if its SHA-1 digest matches the expected hash (or no
//! hash was asked for), and the fetch is exhausted once every candidate has
//! failed. The transport itself happens outside; this machine makes every
//! decision.
use vstd::prelude::*;
use crate::hashing::{hex_of, lower_str, sha1_of, sha1_hex, str_eq_fold_case, lemma_hex_of_lower};

verus! {

/// Whether bytes satisfy the expected hash: accepted outright when no hash
/// was supplied, otherwise by case-insensitive comparison of the expected
/// hex against the SHA-1 of the bytes.
pub open spec fn spec_accepts(expected: Option<String>, bytes: Seq<u8>) -> bool {
    match expected {
        None => true,
        Some(h) => lower_str(h@) == hex_of(sha1_of(bytes)),
    }
}

/// A transport outcome that ends the search: bytes arrived and they match.
pub open spec fn response_ok(expected: Option<String>, r: Option<Seq<u8>>) -> bool {
    r matches Some(b) && spec_accepts(expected, b)
}

/// What trying candidates in order returns, given each candidate's outcome:
/// the first matching response, or nothing when all fail.
pub open spec fn mirror_run(expected: Option<String>, responses: Seq<Option<Seq<u8>>>) -> Option<
    Seq<u8>,
>
    decreases responses.len(),
{
    if responses.len() == 0 {
        None
    } else if response_ok(expected, responses[0]) {
        responses[0]
    } else {
        mirror_run(expected, responses.drop_first())
    }
}

/// Law (mirror fallback): when every candidate before the last fails its
/// transport or hash check and the last one matches, the fetch returns
/// exactly the last candidate's bytes.
pub proof fn lemma_mirror_fallback(expected: Option<String>, responses: Seq<Option<Seq<u8>>>)
    requires
        responses.len() >= 1,
        forall|i: int| 0 <= i < responses.len() - 1 ==> !response_ok(expected, responses[i]),
        response_ok(expected, responses.last()),
    ensures
        mirror_run(expected, responses) == responses.last(),
    decreases responses.len(),
{
    if responses.len() == 1 {
    } else {
        assert(!response_ok(expected, responses[0]));
        let rest = responses.drop_first();
        assert forall|i: int| 0 <= i < rest.len() - 1 implies !response_ok(
            expected,
            rest[i],
        ) by {
            assert(rest[i] == responses[i + 1]);
        }
        assert(rest.last() == responses.last());
        lemma_mirror_fallback(expected, rest);
    }
}

/// Law (exhaustion): when every candidate fails, the fetch returns nothing.
pub proof fn lemma_mirror_exhausted(expected: Option<String>, responses: Seq<Option<Seq<u8>>>)
    requires
        forall|i: int| 0 <= i < responses.len() ==> !response_ok(expected, responses[i]),
    ensures
        mirror_run(expected, responses) is None,
    decreases responses.len(),
{
    if responses.len() > 0 {
        let rest = responses.drop_first();
        assert forall|i: int| 0 <= i < rest.len() implies !response_ok(expected, rest[i]) by {
            assert(rest[i] == responses[i + 1]);
        }
        lemma_mirror_exhausted(expected, rest);
    }
}

/// The state of one mirrored fetch: which candidate is next, and what hash
/// the bytes must carry.
pub struct MirrorFetch {
    urls: Vec<String>,
    expected_sha1: Option<String>,
    next: usize,
}

impl MirrorFetch {
    /// The ordered candidate URLs.
    pub closed spec fn spec_urls(self) -> Seq<String> {
        self.urls@
    }

    /// The expected hash, when the manifest names one.
    pub closed spec fn spec_expected(self) -> Option<String> {
        self.expected_sha1
    }

    /// How many candidates have been consumed.
    pub closed spec fn spec_next(self) -> int {
        self.next as int
    }

    /// The cursor never passes the end of the candidate list.
    pub closed spec fn wf(self) -> bool {
        self.next <= self.urls.len()
    }

    /// Start a fetch over the given candidates.
    pub fn new(urls: Vec<String>, expected_sha1: Option<String>) -> (r: Self)
        ensures
            r.wf(),
            r.spec_urls() == urls@,
            r.spec_expected() == expected_sha1,
            r.spec_next() == 0,
    {
        MirrorFetch { urls, expected_sha1, next: 0 }
    }

    /// The candidate to try now, or nothing once all are consumed —
    /// exhaustion, surfaced as `FetchExhausted` by the caller.
    pub fn current_url(&self) -> (r: Option<&String>)
        requires
            self.wf(),
        ensures
            self.spec_next() < self.spec_urls().len() ==> (r matches Some(u) && *u
                == self.spec_urls()[self.spec_next()]),
            self.spec_next() == self.spec_urls().len() ==> r is None,
    {
        if self.next < self.urls.len() {
            Some(&self.urls[self.next])
        } else {
            None
        }
    }

    /// Whether these bytes satisfy the expected hash.
    pub fn accepts(&self, bytes: &[u8]) -> (r: bool)
        ensures
            r == spec_accepts(self.spec_expected(), bytes@),
    {
        match &self.expected_sha1 {
            None => true,
            Some(h) => {
                let computed = sha1_hex(bytes);
                let r = str_eq_fold_case(h.as_str(), computed.as_str());
                proof {
                    lemma_hex_of_lower(sha1_of(bytes@));
                }
                r
            }
        }
    }

    /// Feed the current candidate's bytes to the machine: they are returned
    /// verified when they match, else the machine advances to the next
    /// candidate.
    pub fn offer(&mut self, bytes: Vec<u8>) -> (r: Option<Vec<u8>>)
        requires
            old(self).wf(),
            old(self).spec_next() < old(self).spec_urls().len(),
        ensures
            final(self).wf(),
            final(self).spec_urls() == old(self).spec_urls(),
            final(self).spec_expected() == old(self).spec_expected(),
            spec_accepts(old(self).spec_expected(), bytes@) ==> r == Some(bytes)
                && final(self).spec_next() == old(self).spec_next(),
            !spec_accepts(old(self).spec_expected(), bytes@) ==> (r is None
                && final(self).spec_next() == old(self).spec_next() + 1),
    {
        if self.accepts(bytes.as_slice()) {
            Some(bytes)
        } else {
            self.next = self.next + 1;
            None
        }
    }

    /// The candidates consumed so far, in the order they were tried: what
    /// an exhaustion error reports, so the caller can name every attempted
    /// URL beside `FetchExhausted`.
    pub fn attempted_urls(&self) -> (r: Vec<String>)
        requires
            self.wf(),
        ensures
            r@ == self.spec_urls().take(self.spec_next()),
    {
        let n = self.next;
        let mut out: Vec<String> = Vec::new();
        let mut i: usize = 0;
        while i < n
            invariant
                n == self.next,
                self.wf(),
                n <= self.urls@.len(),
                i <= n,
                out@ == self.urls@.take(i as int),
            decreases n - i,
        {
            out.push(self.urls[i].clone());
            proof {
                assert(self.urls@.take(i + 1) =~= self.urls@.take(i as int).push(
                    self.urls@[i as int],
                ));
            }
            i += 1;
        }
        out
    }

    /// Record that the current candidate failed at the transport level.
    pub fn transport_failed(&mut self)
        requires
            old(self).wf(),
            old(self).spec_next() < old(self).spec_urls().len(),
        ensures
            final(self).wf(),
            final(self).spec_urls() == old(self).spec_urls(),
            final(self).spec_expected() == old(self).spec_expected(),
            final(self).spec_next() == old(self).spec_next() + 1,
    {
        self.next = self.next + 1;
    }
}

} // verus!
