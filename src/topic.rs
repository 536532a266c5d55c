//! Topic patterns of the status bus.
//!
//! Topics and patterns are `/`-separated segments. In a pattern, a segment
//! `+` stands for exactly one non-empty segment of letters, digits and `_`;
//! a last segment `#` stands for the rest of the topic after the `/` before
//! it, made of those characters and `/`; every other segment must be equal
//! to the topic's.

use vstd::prelude::*;
use vstd::utf8::{encode_utf8, encode_utf8_decode_utf8};

verus! {

pub const SLASH: u8 = 0x2f;

pub const PLUS: u8 = 0x2b;

pub const HASH: u8 = 0x23;

/// A character that a wildcard may match: an ASCII letter or digit, or `_`.
pub open spec fn is_topic_byte(b: u8) -> bool {
    (0x30 <= b <= 0x39) || (0x41 <= b <= 0x5a) || (0x61 <= b <= 0x7a) || b == 0x5f
}

pub open spec fn all_topic_bytes(s: Seq<u8>) -> bool {
    forall|i: int| 0 <= i < s.len() ==> is_topic_byte(#[trigger] s[i])
}

/// The segments of `s` between its `/` separators; there is always at least
/// one, and empty ones are kept.
pub open spec fn split(s: Seq<u8>) -> Seq<Seq<u8>>
    decreases s.len(),
{
    if s.len() == 0 {
        seq![Seq::empty()]
    } else {
        let init = split(s.drop_last());
        if s.last() == SLASH {
            init.push(Seq::empty())
        } else {
            init.update(init.len() - 1, init.last().push(s.last()))
        }
    }
}

/// The segments joined again with `/`.
pub open spec fn join(segs: Seq<Seq<u8>>) -> Seq<u8>
    decreases segs.len(),
{
    if segs.len() <= 1 {
        if segs.len() == 0 {
            Seq::empty()
        } else {
            segs[0]
        }
    } else {
        join(segs.drop_last()) + seq![SLASH] + segs.last()
    }
}

pub open spec fn plus_segment() -> Seq<u8> {
    seq![PLUS]
}

pub open spec fn hash_segment() -> Seq<u8> {
    seq![HASH]
}

/// Whether pattern segments `ps` accept topic segments `ts`.
pub open spec fn segments_match(ps: Seq<Seq<u8>>, ts: Seq<Seq<u8>>) -> bool
    decreases ps.len(),
{
    if ps.len() == 0 {
        ts.len() == 0
    } else if ps.len() == 1 && ps[0] == hash_segment() {
        ts.len() >= 1 && forall|i: int| 0 <= i < ts.len() ==> all_topic_bytes(#[trigger] ts[i])
    } else if ts.len() == 0 {
        false
    } else if ps[0] == plus_segment() {
        ts[0].len() > 0 && all_topic_bytes(ts[0]) && segments_match(ps.drop_first(), ts.drop_first())
    } else {
        ps[0] == ts[0] && segments_match(ps.drop_first(), ts.drop_first())
    }
}

/// Whether `pattern` accepts `topic`, both as UTF-8 bytes.
pub open spec fn topic_matches(pattern: Seq<u8>, topic: Seq<u8>) -> bool {
    segments_match(split(pattern), split(topic))
}

proof fn lemma_split_nonempty(s: Seq<u8>)
    ensures
        split(s).len() >= 1,
    decreases s.len(),
{
    if s.len() > 0 {
        lemma_split_nonempty(s.drop_last());
    }
}

/// Splitting and joining again gives back the original bytes.
pub proof fn lemma_join_split(s: Seq<u8>)
    ensures
        join(split(s)) == s,
    decreases s.len(),
{
    if s.len() > 0 {
        let init = split(s.drop_last());
        lemma_split_nonempty(s.drop_last());
        lemma_join_split(s.drop_last());
        if s.last() == SLASH {
            assert(split(s).drop_last() =~= init);
            assert(s =~= join(init) + seq![SLASH] + Seq::<u8>::empty());
        } else {
            let segs = split(s);
            assert(segs.drop_last() =~= init.drop_last());
            if init.len() == 1 {
                assert(s =~= init[0].push(s.last()));
            } else {
                assert(join(init) == join(init.drop_last()) + seq![SLASH] + init.last());
                assert(s =~= s.drop_last().push(s.last()));
                assert(segs.last() == init.last().push(s.last()));
                assert(join(segs) == join(segs.drop_last()) + seq![SLASH] + segs.last());
                assert(s =~= join(init.drop_last()) + seq![SLASH] + init.last().push(s.last()));
            }
        }
    }
}

/// A `+` or `#` segment.
pub open spec fn is_wildcard(seg: Seq<u8>) -> bool {
    seg == plus_segment() || seg == hash_segment()
}

proof fn lemma_literal_segments(ps: Seq<Seq<u8>>, ts: Seq<Seq<u8>>)
    requires
        forall|i: int| 0 <= i < ps.len() ==> !is_wildcard(#[trigger] ps[i]),
    ensures
        segments_match(ps, ts) <==> ps == ts,
    decreases ps.len(),
{
    if ps.len() == 0 {
        if ts.len() == 0 {
            assert(ps =~= ts);
        }
    } else if ts.len() > 0 {
        assert(!is_wildcard(ps[0]));
        lemma_literal_segments(ps.drop_first(), ts.drop_first());
        if ps[0] == ts[0] && ps.drop_first() == ts.drop_first() {
            assert(ps =~= seq![ps[0]] + ps.drop_first());
            assert(ts =~= seq![ts[0]] + ts.drop_first());
        }
    }
}

/// A pattern without wildcards accepts exactly the topic equal to it.
pub proof fn lemma_literal_pattern(p: Seq<u8>, t: Seq<u8>)
    requires
        forall|i: int| 0 <= i < split(p).len() ==> !is_wildcard(#[trigger] split(p)[i]),
    ensures
        topic_matches(p, t) <==> p == t,
{
    lemma_literal_segments(split(p), split(t));
    lemma_join_split(p);
    lemma_join_split(t);
}

/// On text: a pattern without wildcards accepts exactly the topic equal to
/// it, with no prefix, suffix or partial match.
pub proof fn lemma_literal_topic(p: Seq<char>, t: Seq<char>)
    requires
        forall|i: int|
            0 <= i < split(encode_utf8(p)).len() ==> !is_wildcard(#[trigger] split(encode_utf8(p))[i]),
    ensures
        topic_matches(encode_utf8(p), encode_utf8(t)) <==> p == t,
{
    lemma_literal_pattern(encode_utf8(p), encode_utf8(t));
    encode_utf8_decode_utf8(p);
    encode_utf8_decode_utf8(t);
}

/// A `+` segment accepts exactly one topic segment: a non-empty one of
/// letters, digits and `_`, which therefore holds no `/`.
pub proof fn lemma_plus_segment(ps: Seq<Seq<u8>>, ts: Seq<Seq<u8>>)
    requires
        ps.len() >= 1,
        ps[0] == plus_segment(),
    ensures
        segments_match(ps, ts) <==> ts.len() >= 1 && ts[0].len() > 0 && all_topic_bytes(ts[0])
            && segments_match(ps.drop_first(), ts.drop_first()),
        ts.len() >= 1 && all_topic_bytes(ts[0]) ==> !ts[0].contains(SLASH),
{
    assert(plus_segment()[0] != hash_segment()[0]);
    if ts.len() >= 1 && all_topic_bytes(ts[0]) && ts[0].contains(SLASH) {
        let k = choose|k: int| 0 <= k < ts[0].len() && ts[0][k] == SLASH;
        assert(is_topic_byte(ts[0][k]));
    }
}

/// A last `#` segment accepts the rest of the topic after the `/` before
/// it: one or more trailing segments, each made of letters, digits and `_`
/// (an empty one included, as in `home/`), but never the bare prefix.
pub proof fn lemma_hash_segment(ps: Seq<Seq<u8>>, ts: Seq<Seq<u8>>)
    requires
        ps.len() == 1,
        ps[0] == hash_segment(),
    ensures
        segments_match(ps, ts) <==> ts.len() >= 1 && forall|i: int|
            0 <= i < ts.len() ==> all_topic_bytes(#[trigger] ts[i]),
{
}

/// A byte that the rest of a topic after a `#` may hold: a wildcard byte or `/`.
pub open spec fn is_tail_byte(b: u8) -> bool {
    is_topic_byte(b) || b == SLASH
}

pub open spec fn all_tail_bytes(s: Seq<u8>) -> bool {
    forall|i: int| 0 <= i < s.len() ==> is_tail_byte(#[trigger] s[i])
}

proof fn lemma_split_concat(a: Seq<u8>, b: Seq<u8>)
    ensures
        split(a + seq![SLASH] + b) == split(a) + split(b),
    decreases b.len(),
{
    let s = a + seq![SLASH] + b;
    if b.len() == 0 {
        assert(s.drop_last() =~= a);
        assert(split(a).push(Seq::empty()) =~= split(a) + split(b));
    } else {
        let bd = b.drop_last();
        assert(s.drop_last() =~= a + seq![SLASH] + bd);
        assert(s.last() == b.last());
        lemma_split_concat(a, bd);
        lemma_split_nonempty(bd);
        lemma_split_nonempty(a);
        let init = split(a) + split(bd);
        if b.last() == SLASH {
            assert(init.push(Seq::empty()) =~= split(a) + split(bd).push(Seq::empty()));
        } else {
            let bi = split(bd);
            assert(init.update(init.len() - 1, init.last().push(b.last())) =~= split(a) + bi.update(
                bi.len() - 1,
                bi.last().push(b.last()),
            ));
        }
    }
}

proof fn lemma_split_single(a: Seq<u8>)
    requires
        !a.contains(SLASH),
    ensures
        split(a) == seq![a],
    decreases a.len(),
{
    if a.len() > 0 {
        let ad = a.drop_last();
        assert(!ad.contains(SLASH)) by {
            if ad.contains(SLASH) {
                let k = choose|k: int| 0 <= k < ad.len() && ad[k] == SLASH;
                assert(a[k] == SLASH);
            }
        }
        lemma_split_single(ad);
        assert(a.last() != SLASH) by {
            assert(a[a.len() - 1] == a.last());
        }
        assert(ad.push(a.last()) =~= a);
        assert(seq![ad].update(0, ad.push(a.last())) =~= seq![a]);
    } else {
        assert(a =~= Seq::<u8>::empty());
    }
}

proof fn lemma_split_join(qs: Seq<Seq<u8>>)
    requires
        qs.len() >= 1,
        forall|i: int| 0 <= i < qs.len() ==> !(#[trigger] qs[i]).contains(SLASH),
    ensures
        split(join(qs)) == qs,
    decreases qs.len(),
{
    if qs.len() == 1 {
        lemma_split_single(qs[0]);
        assert(seq![qs[0]] =~= qs);
    } else {
        let qd = qs.drop_last();
        assert forall|i: int| 0 <= i < qd.len() implies !(#[trigger] qd[i]).contains(SLASH) by {
            assert(qd[i] == qs[i]);
        }
        lemma_split_join(qd);
        assert(!qs[qs.len() - 1].contains(SLASH));
        lemma_split_single(qs.last());
        lemma_split_concat(join(qd), qs.last());
        assert(qd + seq![qs.last()] =~= qs);
    }
}

proof fn lemma_join_concat(xs: Seq<Seq<u8>>, ys: Seq<Seq<u8>>)
    requires
        xs.len() >= 1,
        ys.len() >= 1,
    ensures
        join(xs + ys) == join(xs) + seq![SLASH] + join(ys),
    decreases ys.len(),
{
    let zs = xs + ys;
    if ys.len() == 1 {
        assert(zs.drop_last() =~= xs);
    } else {
        let yd = ys.drop_last();
        assert(zs.drop_last() =~= xs + yd);
        lemma_join_concat(xs, yd);
        assert(join(xs) + seq![SLASH] + join(yd) + seq![SLASH] + ys.last() =~= join(xs) + seq![SLASH] + (
        join(yd) + seq![SLASH] + ys.last()));
    }
}

proof fn lemma_tail_segments(r: Seq<u8>)
    requires
        all_tail_bytes(r),
    ensures
        forall|i: int| 0 <= i < split(r).len() ==> all_topic_bytes(#[trigger] split(r)[i]),
    decreases r.len(),
{
    if r.len() > 0 {
        let rd = r.drop_last();
        assert(all_tail_bytes(rd)) by {
            assert forall|i: int| 0 <= i < rd.len() implies is_tail_byte(#[trigger] rd[i]) by {
                assert(rd[i] == r[i]);
            }
        }
        lemma_tail_segments(rd);
        lemma_split_nonempty(rd);
        assert(is_tail_byte(r[r.len() - 1]));
        let sr = split(r);
        let sd = split(rd);
        if r.last() != SLASH {
            assert forall|i: int| 0 <= i < sr.len() implies all_topic_bytes(#[trigger] sr[i]) by {
                if i == sr.len() - 1 {
                    assert forall|k: int| 0 <= k < sr[i].len() implies is_topic_byte(#[trigger] sr[i][k]) by {
                        if k < sd.last().len() {
                            assert(sr[i][k] == sd[i][k]);
                        }
                    }
                } else {
                    assert(sr[i] == sd[i]);
                }
            }
        } else {
            assert forall|i: int| 0 <= i < sr.len() implies all_topic_bytes(#[trigger] sr[i]) by {
                if i < sd.len() {
                    assert(sr[i] == sd[i]);
                }
            }
        }
    }
}

proof fn lemma_join_tail(segs: Seq<Seq<u8>>)
    requires
        forall|i: int| 0 <= i < segs.len() ==> all_topic_bytes(#[trigger] segs[i]),
    ensures
        all_tail_bytes(join(segs)),
    decreases segs.len(),
{
    if segs.len() == 1 {
        assert(all_topic_bytes(segs[0]));
    } else if segs.len() > 1 {
        let sd = segs.drop_last();
        assert forall|i: int| 0 <= i < sd.len() implies all_topic_bytes(#[trigger] sd[i]) by {
            assert(sd[i] == segs[i]);
        }
        lemma_join_tail(sd);
        let j = join(segs);
        assert(all_topic_bytes(segs[segs.len() - 1]));
        assert forall|k: int| 0 <= k < j.len() implies is_tail_byte(#[trigger] j[k]) by {
            let n = join(sd).len();
            if k < n {
                assert(j[k] == join(sd)[k]);
            } else if k > n {
                assert(j[k] == segs.last()[k - n - 1]);
            }
        }
    }
}

proof fn lemma_literal_prefix(qs: Seq<Seq<u8>>, ps: Seq<Seq<u8>>, ts: Seq<Seq<u8>>)
    requires
        forall|i: int| 0 <= i < qs.len() ==> !is_wildcard(#[trigger] qs[i]),
        ps.len() >= 1,
    ensures
        segments_match(qs + ps, ts) <==> (ts.len() >= qs.len() && ts.subrange(0, qs.len() as int)
            == qs && segments_match(ps, ts.skip(qs.len() as int))),
    decreases qs.len(),
{
    if qs.len() == 0 {
        assert(qs + ps =~= ps);
        assert(ts.skip(0) =~= ts);
        assert(ts.subrange(0, 0) =~= qs);
    } else {
        let zs = qs + ps;
        assert(zs[0] == qs[0]);
        assert(!is_wildcard(qs[0]));
        assert(zs.drop_first() =~= qs.drop_first() + ps);
        assert forall|i: int| 0 <= i < qs.drop_first().len() implies !is_wildcard(
            #[trigger] qs.drop_first()[i],
        ) by {
            assert(qs.drop_first()[i] == qs[i + 1]);
        }
        if ts.len() > 0 {
            lemma_literal_prefix(qs.drop_first(), ps, ts.drop_first());
            if ts.len() >= qs.len() {
                assert(ts.drop_first().skip(qs.len() - 1) =~= ts.skip(qs.len() as int));
                let a = ts.subrange(0, qs.len() as int);
                let b = ts.drop_first().subrange(0, qs.len() - 1);
                assert(a.drop_first() =~= b);
                if a == qs {
                    assert(a[0] == ts[0]);
                    assert(b =~= qs.drop_first());
                }
                if ts[0] == qs[0] && b == qs.drop_first() {
                    assert forall|k: int| 0 <= k < qs.len() implies a[k] == qs[k] by {
                        if k > 0 {
                            assert(a[k] == b[k - 1]);
                            assert(qs.drop_first()[k - 1] == qs[k]);
                        }
                    }
                    assert(a =~= qs);
                }
            }
        }
    }
}

/// A pattern of literal segments followed by `#` accepts exactly the topics
/// made of those segments, a `/`, and any rest of letters, digits, `_` and
/// `/`; never the bare prefix, nor another prefix.
pub proof fn lemma_prefix_hash(qs: Seq<Seq<u8>>, t: Seq<u8>)
    requires
        qs.len() >= 1,
        forall|i: int|
            0 <= i < qs.len() ==> !is_wildcard(#[trigger] qs[i]) && !qs[i].contains(SLASH),
    ensures
        topic_matches(join(qs.push(hash_segment())), t) <==> exists|r: Seq<u8>|
            t == join(qs) + seq![SLASH] + r && all_tail_bytes(r),
{
    let ps = qs.push(hash_segment());
    let hs = seq![hash_segment()];
    assert(!hash_segment().contains(SLASH)) by {
        if hash_segment().contains(SLASH) {
            let k = choose|k: int| 0 <= k < hash_segment().len() && hash_segment()[k] == SLASH;
            assert(hash_segment()[0] == HASH);
        }
    }
    assert forall|i: int| 0 <= i < ps.len() implies !(#[trigger] ps[i]).contains(SLASH) by {
        if i < qs.len() {
            assert(ps[i] == qs[i]);
        }
    }
    lemma_split_join(ps);
    assert(ps =~= qs + hs);
    let ts = split(t);
    let n = qs.len() as int;
    lemma_literal_prefix(qs, hs, ts);
    if topic_matches(join(ps), t) {
        let rest = ts.skip(n);
        assert(ts =~= qs + rest);
        lemma_join_split(t);
        lemma_join_concat(qs, rest);
        lemma_join_tail(rest);
        assert(t == join(qs) + seq![SLASH] + join(rest));
    }
    if exists|r: Seq<u8>| t == join(qs) + seq![SLASH] + r && all_tail_bytes(r) {
        let r = choose|r: Seq<u8>| t == join(qs) + seq![SLASH] + r && all_tail_bytes(r);
        assert forall|i: int| 0 <= i < qs.len() implies !(#[trigger] qs[i]).contains(SLASH) by {}
        lemma_split_join(qs);
        lemma_split_concat(join(qs), r);
        lemma_tail_segments(r);
        lemma_split_nonempty(r);
        assert(ts.subrange(0, n) =~= qs);
        assert(ts.skip(n) =~= split(r));
    }
}

/// Whether `b` may stand in a wildcard's match.
pub fn is_topic_char(b: u8) -> (r: bool)
    ensures
        r == is_topic_byte(b),
{
    (0x30 <= b && b <= 0x39) || (0x41 <= b && b <= 0x5a) || (0x61 <= b && b <= 0x7a) || b == 0x5f
}

fn all_topic_chars(s: &Vec<u8>) -> (r: bool)
    ensures
        r == all_topic_bytes(s@),
{
    let mut i: usize = 0;
    while i < s.len()
        invariant
            i <= s@.len(),
            forall|j: int| 0 <= j < i ==> is_topic_byte(#[trigger] s@[j]),
        decreases s@.len() - i,
    {
        if !is_topic_char(s[i]) {
            return false;
        }
        i = i + 1;
    }
    true
}

/// The segments of `s`.
pub(crate) fn split_bytes(s: &[u8]) -> (r: Vec<Vec<u8>>)
    ensures
        r@.map_values(|v: Vec<u8>| v@) == split(s@),
{
    let mut segs: Vec<Vec<u8>> = Vec::new();
    let mut cur: Vec<u8> = Vec::new();
    let mut i: usize = 0;
    assert(s@.subrange(0, 0) =~= Seq::<u8>::empty());
    while i < s.len()
        invariant
            i <= s@.len(),
            segs@.map_values(|v: Vec<u8>| v@).push(cur@) == split(s@.subrange(0, i as int)),
        decreases s@.len() - i,
    {
        let ghost prev = s@.subrange(0, i as int);
        let ghost before = segs@.map_values(|v: Vec<u8>| v@);
        let ghost cur0 = cur@;
        assert(s@.subrange(0, i + 1).drop_last() =~= prev);
        assert(s@.subrange(0, i + 1).last() == s@[i as int]);
        if s[i] == SLASH {
            let mut done: Vec<u8> = Vec::new();
            std::mem::swap(&mut done, &mut cur);
            segs.push(done);
            assert(segs@.map_values(|v: Vec<u8>| v@).push(cur@) =~= before.push(cur0).push(
                Seq::empty(),
            ));
        } else {
            cur.push(s[i]);
            assert(segs@.map_values(|v: Vec<u8>| v@).push(cur@) =~= before.push(cur0).update(
                before.len() as int,
                cur0.push(s@[i as int]),
            ));
        }
        i = i + 1;
    }
    segs.push(cur);
    assert(s@.subrange(0, s@.len() as int) =~= s@);
    assert(segs@.map_values(|v: Vec<u8>| v@) =~= split(s@));
    segs
}

fn bytes_eq(a: &Vec<u8>, b: &Vec<u8>) -> (r: bool)
    ensures
        r == (a@ == b@),
{
    if a.len() != b.len() {
        return false;
    }
    let mut i: usize = 0;
    while i < a.len()
        invariant
            a@.len() == b@.len(),
            i <= a@.len(),
            forall|j: int| 0 <= j < i ==> a@[j] == b@[j],
        decreases a@.len() - i,
    {
        if a[i] != b[i] {
            return false;
        }
        i = i + 1;
    }
    assert(a@ =~= b@);
    true
}

fn is_single(seg: &Vec<u8>, b: u8) -> (r: bool)
    ensures
        r == (seg@ == seq![b]),
{
    if seg.len() == 1 && seg[0] == b {
        assert(seg@ =~= seq![b]);
        true
    } else {
        false
    }
}

/// A compiled topic pattern.
pub struct TopicMatcher {
    segments: Vec<Vec<u8>>,
}

impl TopicMatcher {
    /// The pattern's segments.
    pub closed spec fn segments(&self) -> Seq<Seq<u8>> {
        self.segments@.map_values(|v: Vec<u8>| v@)
    }

    pub fn compile(pattern: &str) -> (r: Self)
        ensures
            r.segments() == split(encode_utf8(pattern@)),
    {
        TopicMatcher { segments: split_bytes(pattern.as_bytes()) }
    }

    /// Whether the pattern accepts `topic`.
    pub fn matches(&self, topic: &str) -> (r: bool)
        ensures
            r == segments_match(self.segments(), split(encode_utf8(topic@))),
    {
        let ts = split_bytes(topic.as_bytes());
        let ps = &self.segments;
        let ghost pv = self.segments();
        let ghost tv = ts@.map_values(|v: Vec<u8>| v@);
        assert(tv == split(encode_utf8(topic@)));
        assert(pv.len() == ps@.len() && tv.len() == ts@.len());
        let mut k: usize = 0;
        assert(pv.skip(0) =~= pv && tv.skip(0) =~= tv);
        while k < ps.len()
            invariant
                pv == self.segments(),
                tv == split(encode_utf8(topic@)),
                pv == ps@.map_values(|v: Vec<u8>| v@),
                tv == ts@.map_values(|v: Vec<u8>| v@),
                k <= ps@.len(),
                k <= ts@.len(),
                segments_match(pv, tv) == segments_match(pv.skip(k as int), tv.skip(k as int)),
            decreases ps@.len() - k,
        {
            let ghost pk = pv.skip(k as int);
            let ghost tk = tv.skip(k as int);
            assert(pk[0] == ps@[k as int]@);
            assert(pk.len() == pv.len() - k && tk.len() == tv.len() - k);
            if k + 1 == ps.len() && is_single(&ps[k], HASH) {
                if k == ts.len() {
                    return false;
                }
                let mut j: usize = k;
                while j < ts.len()
                    invariant
                        pv == self.segments(),
                        tv == split(encode_utf8(topic@)),
                        k + 1 == pv.len(),
                        pv[k as int] == hash_segment(),
                        segments_match(pv, tv) == segments_match(pv.skip(k as int), tk),
                        tv == ts@.map_values(|v: Vec<u8>| v@),
                        tk == tv.skip(k as int),
                        k < ts@.len(),
                        k <= j <= ts@.len(),
                        forall|m: int| 0 <= m < j - k ==> all_topic_bytes(#[trigger] tk[m]),
                    decreases ts@.len() - j,
                {
                    if !all_topic_chars(&ts[j]) {
                        assert(tk[j - k] == ts@[j as int]@);
                        return false;
                    }
                    assert(tk[j - k] == ts@[j as int]@);
                    j = j + 1;
                }
                return true;
            }
            if k == ts.len() {
                return false;
            }
            assert(tk[0] == ts@[k as int]@);
            if is_single(&ps[k], PLUS) {
                if ts[k].len() == 0 || !all_topic_chars(&ts[k]) {
                    return false;
                }
            } else if !bytes_eq(&ps[k], &ts[k]) {
                return false;
            }
            assert(pk.drop_first() =~= pv.skip(k + 1));
            assert(tk.drop_first() =~= tv.skip(k + 1));
            k = k + 1;
        }
        k == ts.len()
    }
}

} // verus!
