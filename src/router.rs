//! The topic router: an ordered list of pattern subscriptions, each with a
//! handler, that selects the handlers an incoming bus message goes to.

use vstd::prelude::*;
use vstd::utf8::encode_utf8;
use crate::json::{json_of, parse_json};
use crate::topic::{TopicMatcher, split, topic_matches};

verus! {

/// One registration: a pattern, its compiled matcher, and its handler.
pub struct Subscription<H> {
    topic: String,
    matcher: TopicMatcher,
    handler: H,
}

impl<H> Subscription<H> {
    pub closed spec fn pattern(&self) -> Seq<char> {
        self.topic@
    }

    pub closed spec fn handler_spec(&self) -> H {
        self.handler
    }

    pub closed spec fn wf(&self) -> bool {
        self.matcher.segments() == split(encode_utf8(self.topic@))
    }

    pub fn new(topic: &str, handler: H) -> (r: Self)
        ensures
            r.wf(),
            r.pattern() == topic@,
            r.handler_spec() == handler,
    {
        Subscription { topic: topic.to_owned(), matcher: TopicMatcher::compile(topic), handler }
    }

    /// Whether this subscription's pattern accepts `topic`.
    pub fn accepts(&self, topic: &str) -> (r: bool)
        requires
            self.wf(),
        ensures
            r == topic_matches(encode_utf8(self.pattern()), encode_utf8(topic@)),
    {
        self.matcher.matches(topic)
    }
}

/// The positions below `n` of the patterns in `pats` that accept `topic`,
/// in increasing order.
pub open spec fn matching_upto(pats: Seq<Seq<char>>, topic: Seq<char>, n: int) -> Seq<usize>
    decreases n,
{
    if n <= 0 {
        Seq::empty()
    } else if topic_matches(encode_utf8(pats[n - 1]), encode_utf8(topic)) {
        matching_upto(pats, topic, n - 1).push((n - 1) as usize)
    } else {
        matching_upto(pats, topic, n - 1)
    }
}

/// The positions of all patterns in `pats` that accept `topic`, in order.
pub open spec fn matching(pats: Seq<Seq<char>>, topic: Seq<char>) -> Seq<usize> {
    matching_upto(pats, topic, pats.len() as int)
}

/// Subscriptions in the order they were registered.
pub struct TopicRouter<H> {
    subs: Vec<Subscription<H>>,
}

impl<H> TopicRouter<H> {
    #[verifier::type_invariant]
    closed spec fn inv(&self) -> bool {
        forall|i: int| 0 <= i < self.subs@.len() ==> (#[trigger] self.subs@[i]).wf()
    }

    /// The registered patterns, in registration order.
    pub closed spec fn patterns(&self) -> Seq<Seq<char>> {
        self.subs@.map_values(|s: Subscription<H>| s.pattern())
    }

    /// The registered handlers, in registration order.
    pub closed spec fn handlers(&self) -> Seq<H> {
        self.subs@.map_values(|s: Subscription<H>| s.handler_spec())
    }

    pub fn new() -> (r: Self)
        ensures
            r.patterns().len() == 0,
            r.handlers().len() == 0,
    {
        TopicRouter { subs: Vec::new() }
    }

    pub fn len(&self) -> (r: usize)
        ensures
            r == self.patterns().len(),
            r == self.handlers().len(),
    {
        self.subs.len()
    }

    /// Appends a subscription. Registering a pattern twice gives two
    /// subscriptions, each dispatched to.
    pub fn register(&mut self, pattern: &str, handler: H)
        ensures
            final(self).patterns() == old(self).patterns().push(pattern@),
            final(self).handlers() == old(self).handlers().push(handler),
    {
        proof {
            use_type_invariant(&*self);
        }
        let sub = Subscription::new(pattern, handler);
        let mut subs: Vec<Subscription<H>> = Vec::new();
        std::mem::swap(&mut subs, &mut self.subs);
        subs.push(sub);
        self.subs = subs;
        assert(self.patterns() =~= old(self).patterns().push(pattern@));
        assert(self.handlers() =~= old(self).handlers().push(handler));
    }

    /// The patterns to subscribe to again after the bus reconnects: every
    /// registered one, in registration order.
    pub fn resubscribe(&self) -> (r: Vec<String>)
        ensures
            r@.map_values(|s: String| s@) == self.patterns(),
    {
        let mut r: Vec<String> = Vec::new();
        let mut i: usize = 0;
        while i < self.subs.len()
            invariant
                i <= self.subs@.len(),
                r@.len() == i,
                r@.map_values(|s: String| s@) == self.patterns().subrange(0, i as int),
            decreases self.subs@.len() - i,
        {
            let ghost before = r@;
            let t = self.subs[i].topic.clone();
            r.push(t);
            assert(r@ == before.push(t));
            assert(t@ == self.patterns()[i as int]);
            assert(r@.map_values(|s: String| s@) =~= self.patterns().subrange(0, i + 1));
            i = i + 1;
        }
        assert(self.patterns().subrange(0, i as int) =~= self.patterns());
        r
    }

    /// The positions of the subscriptions whose pattern accepts `topic`, in
    /// registration order: the handlers that a message on `topic` goes to.
    pub fn receive(&self, topic: &str) -> (r: Vec<usize>)
        ensures
            r@ == matching(self.patterns(), topic@),
    {
        proof {
            use_type_invariant(self);
        }
        let mut r: Vec<usize> = Vec::new();
        let mut i: usize = 0;
        while i < self.subs.len()
            invariant
                forall|j: int| 0 <= j < self.subs@.len() ==> (#[trigger] self.subs@[j]).wf(),
                i <= self.subs@.len(),
                r@ == matching_upto(self.patterns(), topic@, i as int),
            decreases self.subs@.len() - i,
        {
            assert(self.patterns()[i as int] == self.subs@[i as int].pattern());
            if self.subs[i].accepts(topic) {
                r.push(i);
            }
            i = i + 1;
        }
        r
    }

    /// Decodes a bus message and selects the subscriptions it goes to.
    /// `None` when the payload is not JSON: the message is dropped, and the
    /// router is left as it was for the messages after it.
    pub fn dispatch(&self, topic: &str, payload: &[u8]) -> (r: Option<(serde_json::Value, Vec<usize>)>)
        ensures
            r is Some <==> json_of(payload@) is Some,
            r matches Some((v, idx)) ==> json_of(payload@) == Some(v) && idx@ == matching(
                self.patterns(),
                topic@,
            ),
    {
        match parse_json(payload) {
            Ok(v) => Some((v, self.receive(topic))),
            Err(_) => None,
        }
    }

    /// The handler of the subscription at position `i`.
    pub fn handler(&self, i: usize) -> (r: &H)
        requires
            i < self.handlers().len(),
        ensures
            *r == self.handlers()[i as int],
    {
        &self.subs[i].handler
    }
}

} // verus!
