//! The organization-identifier extraction mode: every (scheme, identifier)
//! pair found on a record's employments, each emitted at most once, in
//! first-seen order — within one record and, through the collector, across a
//! whole run.

use vstd::prelude::*;

use crate::decode::{decode_record, decode_spec, DecodeError, GroupV};
use crate::json::{json_escape, push_escaped};
use crate::record::{AffiliationGroup, ExtractedIdentifier, Record};
use crate::text::str_eq;

verus! {

/// The (scheme, identifier) pair of one employment entry, if it has one.
pub open spec fn group_pair(g: AffiliationGroup) -> Option<(Seq<char>, Seq<char>)> {
    match g.employment.organization.identifier {
        None => None,
        Some(oi) => Some((oi.source@, oi.identifier@)),
    }
}

/// The identifier pairs of a record's employments, in document order, ended
/// employments included.
pub open spec fn record_pairs(gs: Seq<AffiliationGroup>) -> Seq<(Seq<char>, Seq<char>)>
    decreases gs.len(),
{
    if gs.len() == 0 {
        Seq::empty()
    } else {
        let p = record_pairs(gs.drop_last());
        match group_pair(gs.last()) {
            Some(x) => p.push(x),
            None => p,
        }
    }
}

/// The identifier pairs of a decoded record's employments.
pub open spec fn record_pairs_v(gs: Seq<GroupV>) -> Seq<(Seq<char>, Seq<char>)>
    decreases gs.len(),
{
    if gs.len() == 0 {
        Seq::empty()
    } else {
        let p = record_pairs_v(gs.drop_last());
        match gs.last().org_id {
            Some(oi) => p.push((oi.source, oi.identifier)),
            None => p,
        }
    }
}

/// Whether `s[i]` already occurs at an earlier position.
pub open spec fn pair_seen_before(s: Seq<(Seq<char>, Seq<char>)>, i: int) -> bool {
    exists|j: int| 0 <= j < i && s[j] == s[i]
}

/// The pairs among the first `i` with every repetition dropped; the first
/// occurrence stays, in order.
pub open spec fn dedup_pairs_upto(s: Seq<(Seq<char>, Seq<char>)>, i: int) -> Seq<
    (Seq<char>, Seq<char>),
>
    decreases i,
{
    if i <= 0 {
        Seq::empty()
    } else {
        let p = dedup_pairs_upto(s, i - 1);
        if pair_seen_before(s, i - 1) {
            p
        } else {
            p.push(s[i - 1])
        }
    }
}

/// The distinct pairs, in first-seen order.
pub open spec fn dedup_pairs(s: Seq<(Seq<char>, Seq<char>)>) -> Seq<(Seq<char>, Seq<char>)> {
    dedup_pairs_upto(s, s.len() as int)
}

/// The pairs among the first `i`, as a set.
pub open spec fn pair_set(s: Seq<(Seq<char>, Seq<char>)>, i: int) -> Set<(Seq<char>, Seq<char>)>
    decreases i,
{
    if i <= 0 {
        Set::empty()
    } else {
        pair_set(s, i - 1).insert(s[i - 1])
    }
}

/// The pairs a list of identifier values denotes.
pub open spec fn pairs_view(s: Seq<ExtractedIdentifier>) -> Seq<(Seq<char>, Seq<char>)> {
    Seq::new(s.len(), |i: int| (s[i].scheme@, s[i].identifier@))
}

proof fn lemma_pair_set_mem(s: Seq<(Seq<char>, Seq<char>)>, i: int, x: (Seq<char>, Seq<char>))
    requires
        0 <= i <= s.len(),
    ensures
        pair_set(s, i).contains(x) <==> exists|j: int| 0 <= j < i && #[trigger] s[j] == x,
    decreases i,
{
    if i > 0 {
        lemma_pair_set_mem(s, i - 1, x);
        if pair_set(s, i).contains(x) {
            if s[i - 1] == x {
                assert(s[i - 1] == x);
            } else {
                let j = choose|j: int| 0 <= j < i - 1 && #[trigger] s[j] == x;
                assert(s[j] == x);
            }
        }
        if exists|j: int| 0 <= j < i && #[trigger] s[j] == x {
            let j = choose|j: int| 0 <= j < i && #[trigger] s[j] == x;
            if j < i - 1 {
                assert(pair_set(s, i - 1).contains(x));
            }
        }
    }
}

proof fn lemma_pair_prefix(
    s1: Seq<(Seq<char>, Seq<char>)>,
    s2: Seq<(Seq<char>, Seq<char>)>,
    k: int,
)
    requires
        0 <= k <= s1.len(),
        k <= s2.len(),
        forall|j: int| 0 <= j < k ==> s1[j] == s2[j],
    ensures
        dedup_pairs_upto(s1, k) == dedup_pairs_upto(s2, k),
        pair_set(s1, k) == pair_set(s2, k),
    decreases k,
{
    if k > 0 {
        lemma_pair_prefix(s1, s2, k - 1);
        assert(pair_seen_before(s1, k - 1) == pair_seen_before(s2, k - 1)) by {
            if pair_seen_before(s1, k - 1) {
                let j = choose|j: int| 0 <= j < k - 1 && #[trigger] s1[j] == s1[k - 1];
                assert(s2[j] == s2[k - 1]);
            }
            if pair_seen_before(s2, k - 1) {
                let j = choose|j: int| 0 <= j < k - 1 && #[trigger] s2[j] == s2[k - 1];
                assert(s1[j] == s1[k - 1]);
            }
        }
        assert(pair_set(s1, k) =~= pair_set(s2, k));
    }
}

proof fn lemma_dedup_pairs_mem(s: Seq<(Seq<char>, Seq<char>)>, k: int, x: (Seq<char>, Seq<char>))
    requires
        0 <= k <= s.len(),
    ensures
        (exists|l: int|
            0 <= l < dedup_pairs_upto(s, k).len() && #[trigger] dedup_pairs_upto(s, k)[l] == x)
            <==> (exists|j: int| 0 <= j < k && #[trigger] s[j] == x),
    decreases k,
{
    if k > 0 {
        lemma_dedup_pairs_mem(s, k - 1, x);
        let out = dedup_pairs_upto(s, k);
        let p = dedup_pairs_upto(s, k - 1);
        if exists|l: int| 0 <= l < out.len() && #[trigger] out[l] == x {
            let l = choose|l: int| 0 <= l < out.len() && #[trigger] out[l] == x;
            if l < p.len() {
                assert(p[l] == x);
                let j = choose|j: int| 0 <= j < k - 1 && #[trigger] s[j] == x;
                assert(s[j] == x);
            } else {
                assert(s[k - 1] == x);
            }
        }
        if exists|j: int| 0 <= j < k && #[trigger] s[j] == x {
            let j = choose|j: int| 0 <= j < k && #[trigger] s[j] == x;
            if j < k - 1 {
                let l = choose|l: int| 0 <= l < p.len() && #[trigger] p[l] == x;
                assert(out[l] == x);
            } else {
                if pair_seen_before(s, k - 1) {
                    let j2 = choose|j2: int| 0 <= j2 < k - 1 && #[trigger] s[j2] == s[k - 1];
                    let l = choose|l: int| 0 <= l < p.len() && #[trigger] p[l] == x;
                    assert(out[l] == x);
                } else {
                    assert(out[out.len() - 1] == x);
                }
            }
        }
    }
}

/// Whether some element of `v` denotes the pair of `e`.
fn contains_pair(v: &Vec<ExtractedIdentifier>, e: &ExtractedIdentifier) -> (r: bool)
    ensures
        r == exists|k: int|
            0 <= k < v@.len() && #[trigger] pairs_view(v@)[k] == (e.scheme@, e.identifier@),
{
    let mut i: usize = 0;
    while i < v.len()
        invariant
            0 <= i <= v@.len(),
            forall|k: int| 0 <= k < i ==> #[trigger] pairs_view(v@)[k] != (e.scheme@, e.identifier@),
        decreases v@.len() - i,
    {
        if str_eq(v[i].scheme.as_str(), e.scheme.as_str()) && str_eq(
            v[i].identifier.as_str(),
            e.identifier.as_str(),
        ) {
            proof {
                assert(pairs_view(v@)[i as int] == (e.scheme@, e.identifier@));
            }
            return true;
        }
        i += 1;
    }
    false
}

/// The distinct identifier pairs of one record's employments, first-seen
/// order, ended employments included.
pub fn collect_org_ids(record: &Record) -> (r: Vec<ExtractedIdentifier>)
    ensures
        pairs_view(r@) == dedup_pairs(record_pairs(record.spec_groups())),
{
    let mut r: Vec<ExtractedIdentifier> = Vec::new();
    let groups: &Vec<AffiliationGroup> = match &record.activities.employments.employment {
        Some(gs) => gs,
        None => {
            proof {
                assert(pairs_view(r@) =~= dedup_pairs(record_pairs(record.spec_groups())));
            }
            return r;
        },
    };
    let mut i: usize = 0;
    while i < groups.len()
        invariant
            0 <= i <= groups@.len(),
            groups@ == record.spec_groups(),
            pairs_view(r@) == dedup_pairs(record_pairs(groups@.subrange(0, i as int))),
        decreases groups@.len() - i,
    {
        let g = &groups[i];
        let ghost pre = groups@.subrange(0, i + 1);
        let ghost prev = record_pairs(groups@.subrange(0, i as int));
        proof {
            assert(pre.drop_last() =~= groups@.subrange(0, i as int));
            assert(pre.last() == groups@[i as int]);
        }
        match &g.employment.organization.identifier {
            None => {},
            Some(oi) => {
                let e = ExtractedIdentifier {
                    scheme: oi.source.clone(),
                    identifier: oi.identifier.clone(),
                };
                let ghost x: (Seq<char>, Seq<char>) = (e.scheme@, e.identifier@);
                let ghost cur = record_pairs(pre);
                proof {
                    assert(cur == prev.push(x));
                    assert(cur.drop_last() =~= prev);
                    assert(forall|j: int| 0 <= j < prev.len() ==> #[trigger] cur[j] == prev[j]);
                    lemma_pair_prefix(cur, prev, prev.len() as int);
                    lemma_dedup_pairs_mem(prev, prev.len() as int, x);
                }
                let present = contains_pair(&r, &e);
                proof {
                    assert(pair_seen_before(cur, cur.len() - 1) == present) by {
                        if present {
                            let k = choose|k: int|
                                0 <= k < r@.len() && #[trigger] pairs_view(r@)[k] == x;
                            let j = choose|j: int| 0 <= j < prev.len() && #[trigger] prev[j] == x;
                            assert(cur[j] == cur[cur.len() - 1]);
                        }
                        if pair_seen_before(cur, cur.len() - 1) {
                            let j = choose|j: int|
                                0 <= j < cur.len() - 1 && #[trigger] cur[j] == cur[cur.len() - 1];
                            assert(prev[j] == x);
                            let l = choose|l: int|
                                0 <= l < dedup_pairs_upto(prev, prev.len() as int).len()
                                    && #[trigger] dedup_pairs_upto(prev, prev.len() as int)[l]
                                    == x;
                            assert(pairs_view(r@)[l] == x);
                        }
                    }
                }
                if !present {
                    r.push(e);
                }
                proof {
                    assert(pairs_view(r@) =~= dedup_pairs_upto(cur, cur.len() as int));
                }
            },
        }
        i += 1;
        proof {
            assert(record_pairs(groups@.subrange(0, i as int)) == record_pairs(pre));
        }
    }
    proof {
        assert(groups@.subrange(0, groups@.len() as int) =~= groups@);
    }
    r
}

/// Carries the identifier pairs already emitted across the records of one
/// run; each distinct pair leaves the run once, at its first appearance.
pub struct OrgIdCollector {
    seen: Vec<ExtractedIdentifier>,
}

/// The pairs not yet in `seen`, first occurrences only, in order.
pub open spec fn fresh_pairs(
    seen: Set<(Seq<char>, Seq<char>)>,
    items: Seq<(Seq<char>, Seq<char>)>,
) -> Seq<(Seq<char>, Seq<char>)>
    decreases items.len(),
{
    if items.len() == 0 {
        Seq::empty()
    } else {
        let p = fresh_pairs(seen, items.drop_last());
        if seen.contains(items.last()) || pair_seen_before(items, items.len() - 1) {
            p
        } else {
            p.push(items.last())
        }
    }
}

impl View for OrgIdCollector {
    type V = Set<(Seq<char>, Seq<char>)>;

    closed spec fn view(&self) -> Set<(Seq<char>, Seq<char>)> {
        pair_set(pairs_view(self.seen@), self.seen@.len() as int)
    }
}

impl OrgIdCollector {
    /// A collector that has emitted nothing yet.
    pub fn new() -> (r: OrgIdCollector)
        ensures
            r@ == Set::<(Seq<char>, Seq<char>)>::empty(),
    {
        OrgIdCollector { seen: Vec::new() }
    }

    /// Takes one record's pairs in and hands out those never seen before, in
    /// order; the collector afterwards knows them all.
    pub fn absorb(&mut self, ids: &Vec<ExtractedIdentifier>) -> (fresh: Vec<ExtractedIdentifier>)
        ensures
            pairs_view(fresh@) == fresh_pairs(old(self)@, pairs_view(ids@)),
            final(self)@ == old(self)@ + pair_set(pairs_view(ids@), pairs_view(ids@).len() as int),
    {
        let ghost items = pairs_view(ids@);
        let mut fresh: Vec<ExtractedIdentifier> = Vec::new();
        let mut i: usize = 0;
        while i < ids.len()
            invariant
                0 <= i <= ids@.len(),
                items == pairs_view(ids@),
                pairs_view(fresh@) == fresh_pairs(old(self)@, items.subrange(0, i as int)),
                self@ == old(self)@ + pair_set(items, i as int),
            decreases ids@.len() - i,
        {
            let e = &ids[i];
            let ghost x: (Seq<char>, Seq<char>) = (e.scheme@, e.identifier@);
            let ghost pre = items.subrange(0, i + 1);
            proof {
                assert(pre.drop_last() =~= items.subrange(0, i as int));
                assert(pre.last() == items[i as int]);
                assert(items[i as int] == x);
                lemma_pair_set_mem(pairs_view(self.seen@), self.seen@.len() as int, x);
                lemma_pair_set_mem(items, i as int, x);
                assert(forall|j: int| 0 <= j < i ==> #[trigger] pre[j] == items[j]);
            }
            let present = contains_pair(&self.seen, e);
            proof {
                assert(present == (old(self)@.contains(x) || pair_seen_before(pre, i as int)))
                    by {
                    if pair_seen_before(pre, i as int) {
                        let j = choose|j: int| 0 <= j < i && #[trigger] pre[j] == pre[i as int];
                        assert(items[j] == x);
                    }
                    if pair_set(items, i as int).contains(x) {
                        let j = choose|j: int| 0 <= j < i && #[trigger] items[j] == x;
                        assert(pre[j] == pre[i as int]);
                    }
                }
            }
            if !present {
                let c = ExtractedIdentifier {
                    scheme: e.scheme.clone(),
                    identifier: e.identifier.clone(),
                };
                let ghost seen0 = self.seen@;
                self.seen.push(
                    ExtractedIdentifier {
                        scheme: c.scheme.clone(),
                        identifier: c.identifier.clone(),
                    },
                );
                fresh.push(c);
                proof {
                    assert(pairs_view(self.seen@).drop_last() =~= pairs_view(seen0));
                    assert(forall|k: int|
                        0 <= k < seen0.len() ==> #[trigger] pairs_view(self.seen@)[k]
                            == pairs_view(seen0)[k]);
                    lemma_pair_prefix(
                        pairs_view(self.seen@),
                        pairs_view(seen0),
                        seen0.len() as int,
                    );
                    assert(pairs_view(self.seen@)[seen0.len() as int] == x);
                }
            }
            i += 1;
            proof {
                assert(pairs_view(fresh@) =~= fresh_pairs(old(self)@, pre));
                assert(self@ =~= old(self)@ + pair_set(items, i as int));
            }
        }
        proof {
            assert(items.subrange(0, items.len() as int) =~= items);
        }
        fresh
    }
}

/// One identifier pair as a compact JSON object.
pub open spec fn extracted_json(e: ExtractedIdentifier) -> Seq<char> {
    "{\"scheme\":\""@ + json_escape(e.scheme@) + "\",\"identifier\":\""@ + json_escape(
        e.identifier@,
    ) + "\"}"@
}

/// One identifier pair as a compact JSON object.
pub fn extracted_to_json(e: &ExtractedIdentifier) -> (r: String)
    ensures
        r@ == extracted_json(*e),
{
    let mut r = String::new();
    r.append("{\"scheme\":\"");
    proof {
        assert(r@ =~= "{\"scheme\":\""@);
    }
    push_escaped(&mut r, e.scheme.as_str());
    r.append("\",\"identifier\":\"");
    push_escaped(&mut r, e.identifier.as_str());
    r.append("\"}");
    r
}

/// One identifier pair as an indented JSON object (array member).
pub open spec fn extracted_json_pretty(e: ExtractedIdentifier) -> Seq<char> {
    "\n  {\n    \"scheme\": \""@ + json_escape(e.scheme@) + "\",\n    \"identifier\": \""@
        + json_escape(e.identifier@) + "\"\n  }"@
}

/// The members of the indented identifier-pair array.
pub open spec fn extracted_items_pretty(s: Seq<ExtractedIdentifier>) -> Seq<char>
    decreases s.len(),
{
    if s.len() == 0 {
        Seq::empty()
    } else if s.len() == 1 {
        extracted_json_pretty(s[0])
    } else {
        extracted_items_pretty(s.drop_last()) + ","@ + extracted_json_pretty(s.last())
    }
}

/// A list of identifier pairs as an indented JSON array.
pub open spec fn extracted_array_pretty(s: Seq<ExtractedIdentifier>) -> Seq<char> {
    if s.len() == 0 {
        "[]"@
    } else {
        "["@ + extracted_items_pretty(s) + "\n]"@
    }
}

/// A list of identifier pairs as an indented JSON array.
pub fn org_ids_json_pretty(v: &Vec<ExtractedIdentifier>) -> (r: String)
    ensures
        r@ == extracted_array_pretty(v@),
{
    if v.len() == 0 {
        let mut r = String::new();
        r.append("[]");
        proof {
            assert(r@ =~= "[]"@);
        }
        return r;
    }
    let mut items = String::new();
    let mut i: usize = 0;
    while i < v.len()
        invariant
            0 <= i <= v@.len(),
            items@ == extracted_items_pretty(v@.subrange(0, i as int)),
        decreases v@.len() - i,
    {
        if i > 0 {
            items.append(",");
        }
        let mut item = String::new();
        item.append("\n  {\n    \"scheme\": \"");
        proof {
            assert(item@ =~= "\n  {\n    \"scheme\": \""@);
        }
        push_escaped(&mut item, v[i].scheme.as_str());
        item.append("\",\n    \"identifier\": \"");
        push_escaped(&mut item, v[i].identifier.as_str());
        item.append("\"\n  }");
        items.append(item.as_str());
        i += 1;
        proof {
            let pre = v@.subrange(0, i as int);
            assert(pre.drop_last() =~= v@.subrange(0, i - 1));
            assert(item@ == extracted_json_pretty(v@[i - 1]));
            assert(items@ =~= extracted_items_pretty(pre));
        }
    }
    proof {
        assert(v@.subrange(0, v@.len() as int) =~= v@);
    }
    let mut r = String::new();
    r.append("[");
    proof {
        assert(r@ =~= "["@);
    }
    r.append(items.as_str());
    r.append("\n]");
    r
}

/// Decodes one document and hands out the distinct identifier pairs of its
/// employments, in first-seen order.
pub fn extract_entry_org_ids(xml: &str) -> (r: Result<Vec<ExtractedIdentifier>, DecodeError>)
    ensures
        r is Ok <==> decode_spec(xml@) is Ok,
        r is Ok ==> pairs_view(r->Ok_0@) == dedup_pairs(
            record_pairs_v(decode_spec(xml@)->Ok_0.groups),
        ),
        r is Err ==> r->Err_0.path@ == decode_spec(xml@)->Err_0,
{
    let record = match decode_record(xml) {
        Err(e) => {
            return Err(e);
        },
        Ok(rec) => rec,
    };
    proof {
        lemma_record_pairs_agree(
            record.spec_groups(),
            decode_spec(xml@)->Ok_0.groups,
        );
    }
    Ok(collect_org_ids(&record))
}

proof fn lemma_record_pairs_agree(gs: Seq<AffiliationGroup>, vs: Seq<GroupV>)
    requires
        crate::decode::groups_match(gs, vs),
    ensures
        record_pairs(gs) == record_pairs_v(vs),
    decreases gs.len(),
{
    if gs.len() > 0 {
        assert(crate::decode::group_matches(gs[gs.len() - 1], vs[gs.len() - 1]));
        assert(forall|i: int|
            0 <= i < gs.len() - 1 ==> crate::decode::group_matches(
                #[trigger] gs.drop_last()[i],
                vs.drop_last()[i],
            ));
        lemma_record_pairs_agree(gs.drop_last(), vs.drop_last());
    }
}

} // verus!
