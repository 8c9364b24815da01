use vstd::prelude::*;

use vstd::string::StringExecFns;

use crate::error::{message_spec, WebError};
use crate::json::{spec_as_i64, Json};
use crate::routes::records::{hosts_member, hosts_of};
use crate::text::opt_text;

verus! {

/// The integer members of one host's tag counts, in order.
pub open spec fn tag_pairs(entries: Seq<(String, Json)>) -> Seq<(Seq<char>, i64)>
    decreases entries.len(),
{
    if entries.len() == 0 {
        seq![]
    } else {
        let rest = tag_pairs(entries.drop_last());
        match spec_as_i64(entries.last().1) {
            Some(n) => rest.push((entries.last().0@, n)),
            None => rest,
        }
    }
}

/// The integer tag counts of a host, when its value is an object.
pub open spec fn host_tags(v: Json) -> Seq<(Seq<char>, i64)> {
    match v {
        Json::Object(entries) => tag_pairs(entries@),
        _ => seq![],
    }
}

/// Every host's integer tag counts, host after host.
pub open spec fn all_tag_pairs(hosts: Seq<(String, Json)>) -> Seq<(Seq<char>, i64)>
    decreases hosts.len(),
{
    if hosts.len() == 0 {
        seq![]
    } else {
        all_tag_pairs(hosts.drop_last()) + host_tags(hosts.last().1)
    }
}

/// The sum of the counts of `tag` among `pairs`.
pub open spec fn tag_sum(pairs: Seq<(Seq<char>, i64)>, tag: Seq<char>) -> int
    decreases pairs.len(),
{
    if pairs.len() == 0 {
        0
    } else {
        tag_sum(pairs.drop_last(), tag) + if pairs.last().0 == tag {
            pairs.last().1 as int
        } else {
            0
        }
    }
}

/// Adding the counts up in order, each tag's running sum stays an `i64`.
pub open spec fn sums_fit(pairs: Seq<(Seq<char>, i64)>) -> bool {
    forall|i: int|
        0 <= i < pairs.len() ==> i64::MIN <= #[trigger] tag_sum(pairs.take(i + 1), pairs[i].0)
            <= i64::MAX
}

/// Some pair counts `tag`.
pub open spec fn pairs_have_tag(pairs: Seq<(Seq<char>, i64)>, tag: Seq<char>) -> bool {
    exists|i: int| 0 <= i < pairs.len() && pairs[i].0 == tag
}

/// `totals` lists a total for `tag`.
pub open spec fn has_total(totals: Seq<(Seq<char>, i64)>, tag: Seq<char>) -> bool {
    exists|k: int| 0 <= k < totals.len() && totals[k].0 == tag
}

/// `totals` holds, once each, every tag counted in `pairs`, with the sum of
/// its counts.
pub open spec fn totals_match(totals: Seq<(Seq<char>, i64)>, pairs: Seq<(Seq<char>, i64)>) -> bool {
    &&& forall|a: int, b: int|
        0 <= a < b < totals.len() ==> (#[trigger] totals[a]).0 != (#[trigger] totals[b]).0
    &&& forall|k: int| 0 <= k < totals.len() ==> (#[trigger] totals[k]).1 == tag_sum(pairs, totals[k].0)
    &&& forall|t: Seq<char>| #[trigger] has_total(totals, t) <==> #[trigger] pairs_have_tag(pairs, t)
}

/// What a list of totals says.
pub open spec fn totals_view(totals: Seq<(String, i64)>) -> Seq<(Seq<char>, i64)> {
    totals.map_values(|e: (String, i64)| (e.0@, e.1))
}

/// The `j`th member of a host's tag counts, when `v` is an object and that
/// member is an integer: its key and count.
pub open spec fn integer_member(v: Json, j: int) -> Option<(Seq<char>, i64)> {
    match v {
        Json::Object(entries) => if 0 <= j < entries@.len() {
            match spec_as_i64(entries@[j].1) {
                Some(n) => Some((entries@[j].0@, n)),
                None => None,
            }
        } else {
            None
        },
        _ => None,
    }
}

/// `totals` has a total for every key that holds an integer in some host's
/// tag counts, and for no other key.
pub open spec fn counts_every_member(totals: Seq<(Seq<char>, i64)>, hosts: Seq<(String, Json)>) -> bool {
    &&& forall|i: int, j: int|
        0 <= i < hosts.len() ==> (#[trigger] integer_member(hosts[i].1, j) matches Some(m)
            ==> has_total(totals, m.0))
    &&& forall|t: Seq<char>|
        #[trigger] has_total(totals, t) ==> exists|i: int, j: int|
            0 <= i < hosts.len() && #[trigger] integer_member(hosts[i].1, j) is Some && (
            integer_member(hosts[i].1, j)->0).0 == t
}

proof fn lemma_tag_pairs_members(entries: Seq<(String, Json)>)
    ensures
        forall|j: int|
            0 <= j < entries.len() ==> (#[trigger] spec_as_i64(entries[j].1) matches Some(n)
                ==> tag_pairs(entries).contains((entries[j].0@, n))),
        forall|p: (Seq<char>, i64)|
            #[trigger] tag_pairs(entries).contains(p) ==> exists|j: int|
                0 <= j < entries.len() && #[trigger] spec_as_i64(entries[j].1) == Some(p.1)
                    && entries[j].0@ == p.0,
    decreases entries.len(),
{
    if entries.len() > 0 {
        let init = entries.drop_last();
        lemma_tag_pairs_members(init);
        let rest = tag_pairs(init);
        let all = tag_pairs(entries);
        assert forall|j: int|
            0 <= j < entries.len() implies (#[trigger] spec_as_i64(entries[j].1) matches Some(n)
            ==> all.contains((entries[j].0@, n))) by {
            if let Some(n) = spec_as_i64(entries[j].1) {
                if j < init.len() {
                    assert(init[j] == entries[j]);
                    assert(spec_as_i64(init[j].1) == Some(n));
                    let k = choose|k: int| 0 <= k < rest.len() && rest[k] == (entries[j].0@, n);
                    assert(all[k] == rest[k]);
                } else {
                    assert(all[rest.len() as int] == (entries[j].0@, n));
                }
            }
        }
        assert forall|p: (Seq<char>, i64)| #[trigger] all.contains(p) implies exists|j: int|
            0 <= j < entries.len() && #[trigger] spec_as_i64(entries[j].1) == Some(p.1)
                && entries[j].0@ == p.0 by {
            let k = choose|k: int| 0 <= k < all.len() && all[k] == p;
            if k < rest.len() {
                assert(all[k] == rest[k]);
                assert(rest.contains(p));
                let j = choose|j: int|
                    0 <= j < init.len() && #[trigger] spec_as_i64(init[j].1) == Some(p.1)
                        && init[j].0@ == p.0;
                assert(init[j] == entries[j]);
            } else {
                let last = entries.len() - 1;
                assert(spec_as_i64(entries[last].1) == Some(p.1));
            }
        }
    }
}

/// Every integer member of every host's tag counts is counted, under its
/// own key; and every key counted is such a member's.
pub proof fn lemma_all_tag_pairs_members(hosts: Seq<(String, Json)>)
    ensures
        forall|i: int, j: int|
            0 <= i < hosts.len() && #[trigger] integer_member(hosts[i].1, j) is Some
                ==> all_tag_pairs(hosts).contains(integer_member(hosts[i].1, j)->0),
        forall|p: (Seq<char>, i64)|
            #[trigger] all_tag_pairs(hosts).contains(p) ==> exists|i: int, j: int|
                0 <= i < hosts.len() && #[trigger] integer_member(hosts[i].1, j) == Some(p),
    decreases hosts.len(),
{
    if hosts.len() > 0 {
        let init = hosts.drop_last();
        let last = hosts.len() - 1;
        lemma_all_tag_pairs_members(init);
        let before = all_tag_pairs(init);
        let mine = host_tags(hosts[last].1);
        let all = all_tag_pairs(hosts);
        assert(all == before + mine);
        if let Json::Object(entries) = hosts[last].1 {
            lemma_tag_pairs_members(entries@);
        }
        assert forall|i: int, j: int|
            0 <= i < hosts.len() && #[trigger] integer_member(hosts[i].1, j) is Some implies all.contains(
            integer_member(hosts[i].1, j)->0) by {
            let m = integer_member(hosts[i].1, j)->0;
            if i < init.len() {
                assert(init[i] == hosts[i]);
                assert(integer_member(init[i].1, j) is Some);
                let k = choose|k: int| 0 <= k < before.len() && before[k] == m;
                assert(all[k] == before[k]);
            } else {
                if let Json::Object(entries) = hosts[last].1 {
                    assert(spec_as_i64(entries@[j].1) == Some(m.1));
                    assert(mine.contains(m));
                    let k = choose|k: int| 0 <= k < mine.len() && mine[k] == m;
                    assert(all[before.len() + k] == mine[k]);
                }
            }
        }
        assert forall|p: (Seq<char>, i64)| #[trigger] all.contains(p) implies exists|i: int, j: int|
            0 <= i < hosts.len() && #[trigger] integer_member(hosts[i].1, j) == Some(p) by {
            let k = choose|k: int| 0 <= k < all.len() && all[k] == p;
            if k < before.len() {
                assert(before[k] == p);
                assert(before.contains(p));
                let (i, j) = choose|i: int, j: int|
                    0 <= i < init.len() && #[trigger] integer_member(init[i].1, j) == Some(p);
                assert(init[i] == hosts[i]);
                assert(integer_member(hosts[i].1, j) == Some(p));
            } else {
                assert(mine[k - before.len()] == p);
                assert(mine.contains(p));
                if let Json::Object(entries) = hosts[last].1 {
                    let j = choose|j: int|
                        0 <= j < entries@.len() && #[trigger] spec_as_i64(entries@[j].1) == Some(p.1)
                            && entries@[j].0@ == p.0;
                    assert(integer_member(hosts[last].1, j) == Some(p));
                }
            }
        }
    }
}

/// Totals that match every host's integer tag counts list a total for each
/// key that holds an integer in any host's tag counts, whatever the integer
/// (zero too), and for no other key.
pub proof fn lemma_totals_count_every_member(totals: Seq<(Seq<char>, i64)>, hosts: Seq<(String, Json)>)
    requires
        totals_match(totals, all_tag_pairs(hosts)),
    ensures
        counts_every_member(totals, hosts),
{
    lemma_all_tag_pairs_members(hosts);
    let all = all_tag_pairs(hosts);
    assert forall|i: int, j: int|
        0 <= i < hosts.len() implies (#[trigger] integer_member(hosts[i].1, j) matches Some(m)
        ==> has_total(totals, m.0)) by {
        if let Some(m) = integer_member(hosts[i].1, j) {
        assert(all.contains(m));
        let k = choose|k: int| 0 <= k < all.len() && all[k] == m;
        assert(pairs_have_tag(all, m.0));
        }
    }
    assert forall|t: Seq<char>| #[trigger] has_total(totals, t) implies exists|i: int, j: int|
        0 <= i < hosts.len() && #[trigger] integer_member(hosts[i].1, j) is Some && (
        integer_member(hosts[i].1, j)->0).0 == t by {
        assert(pairs_have_tag(all, t));
        let k = choose|k: int| 0 <= k < all.len() && all[k].0 == t;
        assert(all.contains(all[k]));
        let (i, j) = choose|i: int, j: int|
            0 <= i < hosts.len() && #[trigger] integer_member(hosts[i].1, j) == Some(all[k]);
        assert(integer_member(hosts[i].1, j) == Some(all[k]));
    }
}

/// Counts add up: the sum of `tag`'s counts over two lists is the sum over
/// the first plus the sum over the second; one count of `tag` adds itself,
/// a count of another tag adds nothing.
pub proof fn lemma_tag_sum_adds(a: Seq<(Seq<char>, i64)>, b: Seq<(Seq<char>, i64)>, tag: Seq<char>)
    ensures
        tag_sum(a + b, tag) == tag_sum(a, tag) + tag_sum(b, tag),
        tag_sum(Seq::empty(), tag) == 0,
        forall|n: i64| #[trigger] tag_sum(seq![(tag, n)], tag) == n,
        forall|other: Seq<char>, n: i64|
            other != tag ==> #[trigger] tag_sum(seq![(other, n)], tag) == 0,
    decreases b.len(),
{
    assert(tag_sum(Seq::empty(), tag) == 0);
    assert forall|n: i64| #[trigger] tag_sum(seq![(tag, n)], tag) == n by {
        let one = seq![(tag, n)];
        assert(one.drop_last() =~= Seq::<(Seq<char>, i64)>::empty());
        assert(tag_sum(one.drop_last(), tag) == 0);
        assert(one.last() == (tag, n));
    }
    assert forall|other: Seq<char>, n: i64| other != tag implies #[trigger] tag_sum(
        seq![(other, n)],
        tag,
    ) == 0 by {
        let one = seq![(other, n)];
        assert(one.drop_last() =~= Seq::<(Seq<char>, i64)>::empty());
        assert(tag_sum(one.drop_last(), tag) == 0);
        assert(one.last() == (other, n));
    }
    if b.len() == 0 {
        assert(a + b =~= a);
    } else {
        lemma_tag_sum_adds(a, b.drop_last(), tag);
        assert((a + b).drop_last() =~= a + b.drop_last());
        assert((a + b).last() == b.last());
    }
}

/// The totals over all hosts are the totals over all but the last host plus
/// that host's own counts; a host's counts add up member by member, each
/// integer member under `tag` adding its count.
pub proof fn lemma_host_totals_add(hosts: Seq<(String, Json)>, tag: Seq<char>)
    ensures
        hosts.len() > 0 ==> tag_sum(all_tag_pairs(hosts), tag) == tag_sum(
            all_tag_pairs(hosts.drop_last()),
            tag,
        ) + tag_sum(host_tags(hosts.last().1), tag),
        hosts.len() == 0 ==> tag_sum(all_tag_pairs(hosts), tag) == 0,
        forall|entries: Seq<(String, Json)>|
            entries.len() > 0 ==> #[trigger] tag_sum(tag_pairs(entries), tag) == tag_sum(
                tag_pairs(entries.drop_last()),
                tag,
            ) + match spec_as_i64(entries.last().1) {
                Some(n) => if entries.last().0@ == tag {
                    n as int
                } else {
                    0
                },
                None => 0,
            },
{
    if hosts.len() > 0 {
        lemma_tag_sum_adds(all_tag_pairs(hosts.drop_last()), host_tags(hosts.last().1), tag);
    }
    assert forall|entries: Seq<(String, Json)>|
        entries.len() > 0 implies #[trigger] tag_sum(tag_pairs(entries), tag) == tag_sum(
            tag_pairs(entries.drop_last()),
            tag,
        ) + match spec_as_i64(entries.last().1) {
            Some(n) => if entries.last().0@ == tag {
                n as int
            } else {
                0
            },
            None => 0,
        } by {
        let rest = tag_pairs(entries.drop_last());
        if let Some(n) = spec_as_i64(entries.last().1) {
            let p = (entries.last().0@, n);
            assert(rest.push(p).drop_last() =~= rest);
            assert(tag_pairs(entries) == rest.push(p));
        }
    }
}

proof fn lemma_tag_sum_absent(pairs: Seq<(Seq<char>, i64)>, tag: Seq<char>)
    requires
        !pairs_have_tag(pairs, tag),
    ensures
        tag_sum(pairs, tag) == 0,
    decreases pairs.len(),
{
    if pairs.len() > 0 {
        assert(!pairs_have_tag(pairs.drop_last(), tag)) by {
            if pairs_have_tag(pairs.drop_last(), tag) {
                let i = choose|i: int| 0 <= i < pairs.drop_last().len() && pairs.drop_last()[i].0 == tag;
                assert(pairs[i].0 == tag);
            }
        }
        lemma_tag_sum_absent(pairs.drop_last(), tag);
        assert(pairs[pairs.len() - 1].0 != tag);
    }
}

proof fn lemma_sums_fit_push(pairs: Seq<(Seq<char>, i64)>, x: (Seq<char>, i64))
    ensures
        sums_fit(pairs.push(x)) <==> (sums_fit(pairs) && i64::MIN <= tag_sum(pairs.push(x), x.0)
            <= i64::MAX),
{
    let p = pairs.push(x);
    assert(p.take(p.len() as int) =~= p);
    assert forall|i: int| 0 <= i < pairs.len() implies #[trigger] p.take(i + 1) == pairs.take(i + 1)
        && p[i] == pairs[i] by {
        assert(p.take(i + 1) =~= pairs.take(i + 1));
    }
    if sums_fit(p) {
        assert forall|i: int| 0 <= i < pairs.len() implies i64::MIN <= #[trigger] tag_sum(
            pairs.take(i + 1),
            pairs[i].0,
        ) <= i64::MAX by {
            assert(p.take(i + 1) == pairs.take(i + 1));
        }
        assert(tag_sum(p.take(pairs.len() as int + 1), p[pairs.len() as int].0) == tag_sum(p, x.0));
    }
    if sums_fit(pairs) && i64::MIN <= tag_sum(p, x.0) <= i64::MAX {
        assert forall|i: int| 0 <= i < p.len() implies i64::MIN <= #[trigger] tag_sum(
            p.take(i + 1),
            p[i].0,
        ) <= i64::MAX by {
            if i < pairs.len() {
                assert(p.take(i + 1) == pairs.take(i + 1));
                assert(tag_sum(pairs.take(i + 1), pairs[i].0) == tag_sum(p.take(i + 1), p[i].0));
            } else {
                assert(p.take(i + 1) == p);
            }
        }
    }
}

proof fn lemma_sums_fit_prefix(p: Seq<(Seq<char>, i64)>, q: Seq<(Seq<char>, i64)>)
    requires
        sums_fit(p + q),
    ensures
        sums_fit(p),
{
    let pq = p + q;
    assert forall|i: int| 0 <= i < p.len() implies i64::MIN <= #[trigger] tag_sum(
        p.take(i + 1),
        p[i].0,
    ) <= i64::MAX by {
        assert(pq.take(i + 1) =~= p.take(i + 1));
        assert(pq[i] == p[i]);
        assert(i64::MIN <= tag_sum(pq.take(i + 1), pq[i].0) <= i64::MAX);
    }
}

/// Adds one count to the running totals. `false`, leaving the totals as they
/// are not stated, when the tag's total overflows an `i64`.
fn add_count(totals: &mut Vec<(String, i64)>, Ghost(pairs): Ghost<Seq<(Seq<char>, i64)>>, tag: &String, n: i64) -> (ok: bool)
    requires
        totals_match(totals_view(old(totals)@), pairs),
        sums_fit(pairs),
    ensures
        ok ==> totals_match(totals_view(final(totals)@), pairs.push((tag@, n))),
        ok <==> sums_fit(pairs.push((tag@, n))),
{
    let ghost x = (tag@, n);
    let ghost p = pairs.push(x);
    let ghost old_view = totals_view(totals@);
    proof {
        lemma_sums_fit_push(pairs, x);
        assert(p.drop_last() =~= pairs);
        assert(tag_sum(p, tag@) == tag_sum(pairs, tag@) + n);
        assert forall|t: Seq<char>| t != tag@ implies tag_sum(p, t) == tag_sum(pairs, t) by {}
        assert forall|t: Seq<char>| #[trigger] pairs_have_tag(p, t) <==> (pairs_have_tag(pairs, t)
            || t == tag@) by {
            if pairs_have_tag(p, t) && t != tag@ {
                let i = choose|i: int| 0 <= i < p.len() && p[i].0 == t;
                assert(i < pairs.len());
                assert(pairs[i].0 == t);
            }
            if pairs_have_tag(pairs, t) {
                let i = choose|i: int| 0 <= i < pairs.len() && pairs[i].0 == t;
                assert(p[i].0 == t);
            }
            if t == tag@ {
                assert(p[pairs.len() as int].0 == t);
            }
        }
    }
    let len = totals.len();
    let mut k: usize = 0;
    #[verifier::loop_isolation(false)]
    while k < len
        invariant
            len == totals@.len(),
            old_view == totals_view(totals@),
            k <= len,
            forall|j: int| 0 <= j < k ==> old_view[j].0 != tag@,
        decreases len - k,
    {
        if crate::text::str_eq(totals[k].0.as_str(), tag.as_str()) {
            assert(old_view[k as int].0 == tag@);
            let sum: i128 = totals[k].1 as i128 + n as i128;
            assert(old_view[k as int].1 == tag_sum(pairs, tag@));
            if sum < -9223372036854775808i128 || sum > 9223372036854775807i128 {
                return false;
            }
            let key = totals[k].0.clone();
            totals.set(k, (key, sum as i64));
            proof {
                let nv = totals_view(totals@);
                assert(nv =~= old_view.update(k as int, (tag@, sum as i64)));
                assert forall|t: Seq<char>| #[trigger] has_total(nv, t) <==> has_total(old_view, t) by {
                    if has_total(nv, t) {
                        let j = choose|j: int| 0 <= j < nv.len() && nv[j].0 == t;
                        assert(old_view[j].0 == t);
                    }
                    if has_total(old_view, t) {
                        let j = choose|j: int| 0 <= j < old_view.len() && old_view[j].0 == t;
                        assert(nv[j].0 == t);
                    }
                }
                assert forall|t: Seq<char>| #[trigger] has_total(nv, t) <==> #[trigger] pairs_have_tag(
                    p,
                    t,
                ) by {
                    assert(has_total(old_view, t) <==> pairs_have_tag(pairs, t));
                    if t == tag@ {
                        assert(has_total(old_view, t));
                    }
                }
            }
            return true;
        }
        k = k + 1;
    }
    proof {
        assert(!has_total(old_view, tag@));
        assert(!pairs_have_tag(pairs, tag@));
        lemma_tag_sum_absent(pairs, tag@);
    }
    totals.push((tag.clone(), n));
    proof {
        let nv = totals_view(totals@);
        assert(nv =~= old_view.push((tag@, n)));
        assert forall|t: Seq<char>| #[trigger] has_total(nv, t) <==> (has_total(old_view, t) || t
            == tag@) by {
            if has_total(nv, t) && t != tag@ {
                let j = choose|j: int| 0 <= j < nv.len() && nv[j].0 == t;
                assert(old_view[j].0 == t);
            }
            if has_total(old_view, t) {
                let j = choose|j: int| 0 <= j < old_view.len() && old_view[j].0 == t;
                assert(nv[j].0 == t);
            }
            if t == tag@ {
                assert(nv[old_view.len() as int].0 == t);
            }
        }
        assert forall|t: Seq<char>| #[trigger] has_total(nv, t) <==> #[trigger] pairs_have_tag(p, t) by {
            assert(has_total(old_view, t) <==> pairs_have_tag(pairs, t));
        }
    }
    true
}

proof fn lemma_all_prefix(hosts: Seq<(String, Json)>, i: int)
    requires
        0 <= i <= hosts.len(),
        sums_fit(all_tag_pairs(hosts)),
    ensures
        sums_fit(all_tag_pairs(hosts.take(i))),
    decreases hosts.len(),
{
    if i == hosts.len() {
        assert(hosts.take(i) =~= hosts);
    } else {
        lemma_sums_fit_prefix(all_tag_pairs(hosts.drop_last()), host_tags(hosts.last().1));
        assert(hosts.drop_last().take(i) =~= hosts.take(i));
        lemma_all_prefix(hosts.drop_last(), i);
    }
}

proof fn lemma_tags_prefix(a: Seq<(Seq<char>, i64)>, e: Seq<(String, Json)>, j: int)
    requires
        0 <= j <= e.len(),
        sums_fit(a + tag_pairs(e)),
    ensures
        sums_fit(a + tag_pairs(e.take(j))),
    decreases e.len(),
{
    if j == e.len() {
        assert(e.take(j) =~= e);
    } else {
        let rest = tag_pairs(e.drop_last());
        match spec_as_i64(e.last().1) {
            Some(n) => {
                assert(a + tag_pairs(e) =~= (a + rest) + seq![(e.last().0@, n)]);
                lemma_sums_fit_prefix(a + rest, seq![(e.last().0@, n)]);
            },
            None => {},
        }
        assert(e.drop_last().take(j) =~= e.take(j));
        lemma_tags_prefix(a, e.drop_last(), j);
    }
}

/// Each tag's total number of records over all hosts, from the server's
/// record status (the highest index each host reports, added up), in the
/// order in which the tags first appear. `None` when a total overflows an
/// `i64`.
pub fn tag_totals(status: &Option<Json>) -> (r: Option<Vec<(String, i64)>>)
    ensures
        r is None <==> !sums_fit(all_tag_pairs(hosts_of(*status))),
        r matches Some(v) ==> totals_match(totals_view(v@), all_tag_pairs(hosts_of(*status))),
        r matches Some(v) ==> counts_every_member(totals_view(v@), hosts_of(*status)),
{
    let empty: Vec<(String, Json)> = Vec::new();
    let hosts: &Vec<(String, Json)> = match hosts_member(status) {
        Some(entries) => entries,
        None => &empty,
    };
    let ghost all = all_tag_pairs(hosts@);
    assert(hosts@ == hosts_of(*status));
    let mut totals: Vec<(String, i64)> = Vec::new();
    let n = hosts.len();
    let mut i: usize = 0;
    proof {
        assert(hosts@.take(0) =~= Seq::<(String, Json)>::empty());
        assert(totals_view(totals@) =~= Seq::<(Seq<char>, i64)>::empty());
        assert forall|t: Seq<char>| #[trigger] has_total(totals_view(totals@), t) <==> #[trigger] pairs_have_tag(
            all_tag_pairs(hosts@.take(0)),
            t,
        ) by {}
    }
    while i < n
        invariant
            n == hosts@.len(),
            i <= n,
            all == all_tag_pairs(hosts@),
            hosts@ == hosts_of(*status),
            totals_match(totals_view(totals@), all_tag_pairs(hosts@.take(i as int))),
            sums_fit(all_tag_pairs(hosts@.take(i as int))),
        decreases n - i,
    {
        let ghost before = all_tag_pairs(hosts@.take(i as int));
        proof {
            assert(hosts@.take(i + 1).drop_last() =~= hosts@.take(i as int));
            assert(all_tag_pairs(hosts@.take(i + 1)) == before + host_tags(hosts@[i as int].1));
        }
        match hosts[i].1.as_object() {
            Some(entries) => {
                let m = entries.len();
                let mut j: usize = 0;
                proof {
                    assert(entries@.take(0) =~= Seq::<(String, Json)>::empty());
                    assert(before + tag_pairs(entries@.take(0)) =~= before);
                }
                while j < m
                    invariant
                        m == entries@.len(),
                        j <= m,
                        n == hosts@.len(),
                        i < n,
                        all == all_tag_pairs(hosts@),
                        hosts@ == hosts_of(*status),
                        hosts@[i as int].1 == Json::Object(*entries),
                        before == all_tag_pairs(hosts@.take(i as int)),
                        all_tag_pairs(hosts@.take(i + 1)) == before + host_tags(hosts@[i as int].1),
                        totals_match(totals_view(totals@), before + tag_pairs(entries@.take(j as int))),
                        sums_fit(before + tag_pairs(entries@.take(j as int))),
                    decreases m - j,
                {
                    let ghost acc = before + tag_pairs(entries@.take(j as int));
                    proof {
                        assert(entries@.take(j + 1).drop_last() =~= entries@.take(j as int));
                    }
                    match entries[j].1.as_i64() {
                        Some(count) => {
                            let ok = add_count(&mut totals, Ghost(acc), &entries[j].0, count);
                            proof {
                                assert(tag_pairs(entries@.take(j + 1)) == tag_pairs(
                                    entries@.take(j as int),
                                ).push((entries@[j as int].0@, count)));
                                assert(acc.push((entries@[j as int].0@, count)) =~= before + tag_pairs(
                                    entries@.take(j + 1),
                                ));
                            }
                            if !ok {
                                proof {
                                    if sums_fit(all) {
                                        lemma_all_prefix(hosts@, i + 1);
                                        assert(host_tags(hosts@[i as int].1) == tag_pairs(entries@));
                                        lemma_tags_prefix(before, entries@, j + 1);
                                        assert(false);
                                    }
                                }
                                return None;
                            }
                        },
                        None => {
                            proof {
                                assert(tag_pairs(entries@.take(j + 1)) == tag_pairs(
                                    entries@.take(j as int),
                                ));
                            }
                        },
                    }
                    j = j + 1;
                }
                proof {
                    assert(entries@.take(m as int) =~= entries@);
                }
            },
            None => {
                proof {
                    assert(host_tags(hosts@[i as int].1) == Seq::<(Seq<char>, i64)>::empty());
                    assert(before + host_tags(hosts@[i as int].1) =~= before);
                }
            },
        }
        i = i + 1;
    }
    proof {
        assert(hosts@.take(n as int) =~= hosts@);
        lemma_totals_count_every_member(totals_view(totals@), hosts@);
    }
    Some(totals)
}

/// What the text of a JSON document says in its member `key`, when the text
/// parses and that member is a string.
pub uninterp spec fn json_text_member_str(text: Seq<char>, key: Seq<char>) -> Option<Seq<char>>;

/// `serde_json::from_str` into a `serde_json::Value`, read through
/// `Value::get` and `Value::as_str` (the member `key`, when the text parses
/// to an object that has it as a string): named `json_text_member_str`.
#[verifier::external_body]
fn parsed_member_str(text: &str, key: &str) -> (r: Option<String>)
    ensures
        opt_text(r) == json_text_member_str(text@, key@),
{
    match serde_json::from_str::<serde_json::Value>(text) {
        Ok(v) => match v.get(key) {
            Some(m) => match m.as_str() {
                Some(s) => Some(s.to_string()),
                None => None,
            },
            None => None,
        },
        Err(_) => None,
    }
}

/// The server is healthy when its health check answers "Ok", or a JSON
/// object whose "status" is "healthy"; the label then reads "Ok", else the
/// answer as it came.
pub open spec fn health_spec(text: Seq<char>, status_member: Option<Seq<char>>) -> Seq<char> {
    if text == "Ok"@ {
        "Ok"@
    } else if status_member == Some("healthy"@) {
        "Ok"@
    } else {
        text
    }
}

/// The health label, given the health check's answer and the "status"
/// member of that answer read as JSON.
pub fn health_label(text: &str, status_member: Option<&str>) -> (r: String)
    ensures
        r@ == health_spec(text@, match status_member {
            Some(m) => Some(m@),
            None => None,
        }),
{
    if crate::text::str_eq(text, "Ok") {
        return String::from_str("Ok");
    }
    match status_member {
        Some(m) => if crate::text::str_eq(m, "healthy") {
            String::from_str("Ok")
        } else {
            String::from_str(text)
        },
        None => String::from_str(text),
    }
}

/// The health label of the health check's answer.
pub fn health_status(text: &str) -> (r: String)
    ensures
        r@ == health_spec(text@, json_text_member_str(text@, "status"@)),
{
    if crate::text::str_eq(text, "Ok") {
        return String::from_str("Ok");
    }
    let member = parsed_member_str(text, "status");
    match &member {
        Some(m) => health_label(text, Some(m.as_str())),
        None => health_label(text, None),
    }
}

/// What the dashboard shows.
pub struct DashboardView {
    /// The signed-in user, as the server describes them.
    pub me: Json,
    /// Each tag's total number of records over all hosts.
    pub counts: Vec<(String, i64)>,
    /// The server's record status.
    pub status: Json,
    /// "Ok" for a healthy server.
    pub health: String,
    /// What could not be fetched, in the order health, user, records.
    pub errors: Vec<String>,
}

/// The requests of the dashboard that failed, each with the words that
/// introduce it: health check, user info, record status.
pub open spec fn dashboard_failures(
    me: Result<Json, WebError>,
    records: Result<Json, WebError>,
    health: Result<String, WebError>,
) -> Seq<(Seq<char>, WebError)> {
    (match health {
        Err(e) => seq![("Health check: "@, e)],
        Ok(_) => seq![],
    }) + (match me {
        Err(e) => seq![("User info: "@, e)],
        Ok(_) => seq![],
    }) + (match records {
        Err(e) => seq![("Record status: "@, e)],
        Ok(_) => seq![],
    })
}

/// `line` reports the failure: its introducing words, then the error's
/// message.
pub open spec fn reports(line: Seq<char>, failure: (Seq<char>, WebError)) -> bool {
    exists|m: Seq<char>| #[trigger] message_spec(failure.1, m) && line == failure.0 + m
}

/// `errors` reports `failures`, one line each, in order.
pub open spec fn errors_report(errors: Seq<String>, failures: Seq<(Seq<char>, WebError)>) -> bool {
    &&& errors.len() == failures.len()
    &&& forall|k: int| 0 <= k < errors.len() ==> reports((#[trigger] errors[k])@, failures[k])
}

fn report(errors: &mut Vec<String>, prefix: &str, e: &WebError)
    ensures
        final(errors)@.len() == old(errors)@.len() + 1,
        forall|k: int| 0 <= k < old(errors)@.len() ==> final(errors)@[k] == old(errors)@[k],
        reports(final(errors)@[old(errors)@.len() as int]@, (prefix@, *e)),
{
    let m = e.message();
    let mut line = String::from_str(prefix);
    line.append(m.as_str());
    errors.push(line);
    assert(message_spec(*e, m@));
    let ghost f = (prefix@, *e);
    assert(message_spec(f.1, m@));
    assert(errors@[errors@.len() - 1]@ == prefix@ + m@);
    assert(reports(errors@[errors@.len() - 1]@, f));
}

/// Puts the dashboard together from the server's answers: the user, the
/// record status, and the health check. `None` when a tag's total overflows
/// an `i64`.
pub fn dashboard_view(
    me: Result<Json, WebError>,
    records: Result<Json, WebError>,
    health: Result<String, WebError>,
) -> (r: Option<DashboardView>)
    ensures
        r is None <==> (records matches Ok(v) && !sums_fit(all_tag_pairs(hosts_of(Some(v))))),
        r matches Some(d) ==> {
            &&& d.me == match me {
                Ok(v) => v,
                Err(_) => Json::Null,
            }
            &&& d.status == match records {
                Ok(v) => v,
                Err(_) => Json::Null,
            }
            &&& (records matches Ok(v) ==> totals_match(
                totals_view(d.counts@),
                all_tag_pairs(hosts_of(Some(v))),
            ) && counts_every_member(totals_view(d.counts@), hosts_of(Some(v))))
            &&& (records is Err ==> d.counts@.len() == 0)
            &&& d.health@ == match health {
                Ok(h) => health_spec(h@, json_text_member_str(h@, "status"@)),
                Err(_) => Seq::empty(),
            }
            &&& errors_report(d.errors@, dashboard_failures(me, records, health))
        },
{
    let ghost failures = dashboard_failures(me, records, health);
    let mut errors: Vec<String> = Vec::new();
    let health_text = match &health {
        Ok(h) => health_status(h.as_str()),
        Err(e) => {
            report(&mut errors, "Health check: ", e);
            String::new()
        },
    };
    let ghost after_health = errors@;
    let me_value = match me {
        Ok(v) => v,
        Err(e) => {
            report(&mut errors, "User info: ", &e);
            Json::Null
        },
    };
    let ghost after_me = errors@;
    let (counts, status) = match records {
        Ok(v) => {
            let status = Some(v);
            match tag_totals(&status) {
                Some(c) => {
                    let v = status.unwrap();
                    (c, v)
                },
                None => {
                    return None;
                },
            }
        },
        Err(e) => {
            report(&mut errors, "Record status: ", &e);
            (Vec::new(), Json::Null)
        },
    };
    proof {
        assert(errors@.len() == failures.len());
        assert forall|k: int| 0 <= k < errors@.len() implies reports(
            (#[trigger] errors@[k])@,
            failures[k],
        ) by {
            let hn: int = if health is Err { 1 } else { 0 };
            let mn: int = if me is Err { 1 } else { 0 };
            if k < hn {
                assert(errors@[k] == after_health[k]);
                assert(after_me[k] == after_health[k]);
            } else if k < hn + mn {
                assert(errors@[k] == after_me[k]);
            }
        }
    }
    Some(DashboardView { me: me_value, counts, status, health: health_text, errors })
}

} // verus!
