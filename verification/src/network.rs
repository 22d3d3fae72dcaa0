//! Network subsystem: wireless scanning, connection replies and the
//! connectivity monitor.
//!
//! The scan turns the network tool's colon-separated table into a list of
//! networks that is unique per ssid (first row wins, empty ssids dropped),
//! flagged with the known and active profiles, and ordered with the active
//! network first and stronger signals before weaker ones.

use vstd::prelude::*;
use vstd::multiset::Multiset;
use vstd::string::StrSliceExecFns;
use vstd::string::StringExecFns;
use crate::cache::DomainCache;
use crate::monitor::current_value;
use crate::monitor::monitor_outputs;
use crate::text::contains_seq;
use crate::text::contains_str;
use crate::text::lines;
use crate::text::lines_seq;
use crate::text::tokens;
use crate::text::tokens_seq;
use crate::text::parse_u8_or_zero;
use crate::text::parse_u8_str;
use crate::text::split_seq;
use crate::text::split_str;
use crate::types::NetworkStatus;
use crate::types::WifiNet;
use crate::types::WifiNetView;

verus! {

broadcast use vstd::seq_lib::group_to_multiset_ensures;

/// One scan table line as (ssid, signal, security), when it has at least
/// three colon-separated fields.
pub open spec fn row_of_line(l: Seq<char>) -> Option<(Seq<char>, Seq<char>, Seq<char>)> {
    let p = split_seq(l, ':');
    if p.len() >= 3 {
        Some((p[0], p[1], p[2]))
    } else {
        None
    }
}

/// The rows of a whole scan table.
pub open spec fn scan_rows(ls: Seq<Seq<char>>) -> Seq<(Seq<char>, Seq<char>, Seq<char>)>
    decreases ls.len(),
{
    if ls.len() == 0 {
        Seq::empty()
    } else {
        scan_rows(ls.drop_last()) + (match row_of_line(ls.last()) {
            Some(r) => seq![r],
            None => Seq::empty(),
        })
    }
}

/// View of one parsed row.
pub open spec fn row_view(t: (String, String, String)) -> (Seq<char>, Seq<char>, Seq<char>) {
    (t.0@, t.1@, t.2@)
}

/// Parses the scan table: one row per line with at least three
/// colon-separated fields, in table order.
pub fn parse_scan_rows(out: &str) -> (r: Vec<(String, String, String)>)
    ensures
        r@.map_values(|t: (String, String, String)| row_view(t)) == scan_rows(lines_seq(out@)),
{
    let ls = lines(out);
    let ghost lviews = ls@.map_values(|x: String| x@);
    let mut rows: Vec<(String, String, String)> = Vec::new();
    let mut i: usize = 0;
    proof {
        assert(lviews.take(0) =~= Seq::<Seq<char>>::empty());
        assert(rows@.map_values(|t: (String, String, String)| row_view(t)) =~= scan_rows(
            lviews.take(0),
        ));
    }
    while i < ls.len()
        invariant
            i <= ls@.len(),
            lviews == ls@.map_values(|x: String| x@),
            rows@.map_values(|t: (String, String, String)| row_view(t)) == scan_rows(
                lviews.take(i as int),
            ),
        decreases ls@.len() - i,
    {
        let mut p = split_str(ls[i].as_str(), ':');
        proof {
            assert(lviews.take(i + 1).drop_last() =~= lviews.take(i as int));
            assert(lviews.take(i + 1).last() == lviews[i as int]);
        }
        if p.len() >= 3 {
            let f0 = p.remove(0);
            let f1 = p.remove(0);
            let f2 = p.remove(0);
            proof {
                let ps = split_seq(lviews[i as int], ':');
                assert(f0@ == ps[0] && f1@ == ps[1] && f2@ == ps[2]);
                assert((rows@.push((f0, f1, f2))).map_values(
                    |t: (String, String, String)| row_view(t),
                ) =~= scan_rows(lviews.take(i + 1)));
            }
            rows.push((f0, f1, f2));
        } else {
            proof {
                assert(scan_rows(lviews.take(i + 1)) =~= scan_rows(lviews.take(i as int)));
            }
        }
        i = i + 1;
    }
    proof {
        assert(lviews.take(lviews.len() as int) =~= lviews);
    }
    rows
}

/// Some row in `rows` carries the ssid `s`.
pub open spec fn row_occurs(rows: Seq<(Seq<char>, Seq<char>, Seq<char>)>, s: Seq<char>) -> bool {
    exists|j: int| 0 <= j < rows.len() && rows[j].0 == s
}

/// Rows with an empty ssid are dropped and only a ssid's first row is kept.
pub open spec fn dedup_rows(rows: Seq<(Seq<char>, Seq<char>, Seq<char>)>) -> Seq<
    (Seq<char>, Seq<char>, Seq<char>),
>
    decreases rows.len(),
{
    if rows.len() == 0 {
        Seq::empty()
    } else {
        let d = dedup_rows(rows.drop_last());
        if rows.last().0.len() > 0 && !row_occurs(rows.drop_last(), rows.last().0) {
            d.push(rows.last())
        } else {
            d
        }
    }
}

/// The list `xs` holds the string `s`.
pub open spec fn seq_has(xs: Seq<Seq<char>>, s: Seq<char>) -> bool {
    exists|j: int| 0 <= j < xs.len() && xs[j] == s
}

/// The network a row describes, flagged against the active connection name
/// and the known profile names.
pub open spec fn net_of_row(
    r: (Seq<char>, Seq<char>, Seq<char>),
    active: Seq<char>,
    known: Seq<Seq<char>>,
) -> WifiNetView {
    WifiNetView {
        ssid: r.0,
        strength: parse_u8_or_zero(r.1),
        security: r.2,
        known: seq_has(known, r.0),
        active: r.0 == active,
    }
}

/// The networks of a row list, in row order.
pub open spec fn nets_of(
    rows: Seq<(Seq<char>, Seq<char>, Seq<char>)>,
    active: Seq<char>,
    known: Seq<Seq<char>>,
) -> Seq<WifiNetView>
    decreases rows.len(),
{
    if rows.len() == 0 {
        Seq::empty()
    } else {
        nets_of(rows.drop_last(), active, known).push(net_of_row(rows.last(), active, known))
    }
}

/// Some network in `nets` carries the ssid `s`.
pub open spec fn has_ssid(nets: Seq<WifiNetView>, s: Seq<char>) -> bool {
    exists|j: int| 0 <= j < nets.len() && nets[j].ssid == s
}

/// A ssid occurs among the deduplicated rows exactly when it is nonempty
/// and occurs among the original rows.
pub proof fn lemma_dedup_occurs(rows: Seq<(Seq<char>, Seq<char>, Seq<char>)>, s: Seq<char>)
    ensures
        row_occurs(dedup_rows(rows), s) <==> (s.len() > 0 && row_occurs(rows, s)),
    decreases rows.len(),
{
    if rows.len() == 0 {
        assert(!row_occurs(dedup_rows(rows), s));
        assert(!row_occurs(rows, s));
    } else {
        lemma_dedup_occurs(rows.drop_last(), s);
        let d = dedup_rows(rows.drop_last());
        if rows.last().0.len() > 0 && !row_occurs(rows.drop_last(), rows.last().0) {
            assert(dedup_rows(rows) == d.push(rows.last()));
            if s.len() > 0 && row_occurs(rows, s) {
                let j = choose|j: int| 0 <= j < rows.len() && rows[j].0 == s;
                if j < rows.len() - 1 {
                    assert(rows.drop_last()[j] == rows[j]);
                    assert(row_occurs(rows.drop_last(), s));
                    let m = choose|m: int| 0 <= m < d.len() && d[m].0 == s;
                    assert(d.push(rows.last())[m].0 == s);
                    assert(row_occurs(dedup_rows(rows), s));
                } else {
                    assert(d.push(rows.last()).last().0 == s);
                    assert(row_occurs(dedup_rows(rows), s));
                }
            }
            if row_occurs(dedup_rows(rows), s) {
                let m = choose|m: int| 0 <= m < d.push(rows.last()).len() && d.push(
                    rows.last(),
                )[m].0 == s;
                if m < d.len() {
                    assert(row_occurs(d, s));
                    let j = choose|j: int| 0 <= j < rows.drop_last().len() && rows.drop_last()[j].0
                        == s;
                    assert(rows[j].0 == s);
                    assert(row_occurs(rows, s));
                } else {
                    assert(rows.last().0 == s);
                    assert(row_occurs(rows, s));
                }
            }
        } else {
            assert(dedup_rows(rows) == d);
            if s.len() > 0 && row_occurs(rows, s) {
                let j = choose|j: int| 0 <= j < rows.len() && rows[j].0 == s;
                if j == rows.len() - 1 {
                    if rows.last().0.len() > 0 {
                        assert(row_occurs(rows.drop_last(), rows.last().0));
                        assert(row_occurs(rows.drop_last(), s));
                    }
                } else {
                    assert(rows.drop_last()[j] == rows[j]);
                    assert(row_occurs(rows.drop_last(), s));
                }
            }
            if row_occurs(d, s) {
                assert(s.len() > 0 && row_occurs(rows.drop_last(), s));
                let j = choose|j: int| 0 <= j < rows.drop_last().len() && rows.drop_last()[j].0
                    == s;
                assert(rows[j].0 == s);
            }
        }
    }
}

/// The networks of a row list carry exactly the row ssids.
pub proof fn lemma_nets_ssids(
    rows: Seq<(Seq<char>, Seq<char>, Seq<char>)>,
    active: Seq<char>,
    known: Seq<Seq<char>>,
    s: Seq<char>,
)
    ensures
        has_ssid(nets_of(rows, active, known), s) <==> row_occurs(rows, s),
    decreases rows.len(),
{
    let ns = nets_of(rows, active, known);
    if rows.len() == 0 {
        assert(!has_ssid(ns, s));
        assert(!row_occurs(rows, s));
    } else {
        lemma_nets_ssids(rows.drop_last(), active, known, s);
        let d = nets_of(rows.drop_last(), active, known);
        assert(ns == d.push(net_of_row(rows.last(), active, known)));
        if row_occurs(rows, s) {
            let j = choose|j: int| 0 <= j < rows.len() && rows[j].0 == s;
            if j < rows.len() - 1 {
                assert(rows.drop_last()[j] == rows[j]);
                let m = choose|m: int| 0 <= m < d.len() && d[m].ssid == s;
                assert(ns[m].ssid == s);
            } else {
                assert(ns.last().ssid == s);
            }
            assert(has_ssid(ns, s));
        }
        if has_ssid(ns, s) {
            let m = choose|m: int| 0 <= m < ns.len() && ns[m].ssid == s;
            if m < d.len() {
                let j = choose|j: int| 0 <= j < rows.drop_last().len() && rows.drop_last()[j].0
                    == s;
                assert(rows[j].0 == s);
            } else {
                assert(rows.last().0 == s);
            }
            assert(row_occurs(rows, s));
        }
    }
}

/// Whether some already-collected network carries this ssid.
fn nets_have_ssid(nets: &Vec<WifiNet>, ssid: &String) -> (r: bool)
    ensures
        r == has_ssid(nets@.map_values(|n: WifiNet| n@), ssid@),
{
    let ghost views = nets@.map_values(|n: WifiNet| n@);
    let mut k: usize = 0;
    while k < nets.len()
        invariant
            k <= nets@.len(),
            views == nets@.map_values(|n: WifiNet| n@),
            forall|m: int| 0 <= m < k ==> views[m].ssid != ssid@,
        decreases nets@.len() - k,
    {
        if nets[k].ssid == *ssid {
            proof {
                assert(views[k as int].ssid == ssid@);
            }
            return true;
        }
        k = k + 1;
    }
    false
}

/// Whether the known-profile list holds this name.
fn list_has_string(xs: &Vec<String>, s: &String) -> (r: bool)
    ensures
        r == seq_has(xs@.map_values(|x: String| x@), s@),
{
    let ghost views = xs@.map_values(|x: String| x@);
    let mut k: usize = 0;
    while k < xs.len()
        invariant
            k <= xs@.len(),
            views == xs@.map_values(|x: String| x@),
            forall|m: int| 0 <= m < k ==> views[m] != s@,
        decreases xs@.len() - k,
    {
        if xs[k] == *s {
            proof {
                assert(views[k as int] == s@);
            }
            return true;
        }
        k = k + 1;
    }
    false
}

/// Builds the network list of one scan from its parsed rows: empty ssids
/// dropped, first row per ssid kept, each row flagged against the active
/// connection and the known profiles.
pub fn build_networks(
    rows: &Vec<(String, String, String)>,
    active: &String,
    known: &Vec<String>,
) -> (r: Vec<WifiNet>)
    ensures
        r@.map_values(|n: WifiNet| n@) == nets_of(
            dedup_rows(rows@.map_values(|t: (String, String, String)| row_view(t))),
            active@,
            known@.map_values(|x: String| x@),
        ),
{
    let ghost rviews = rows@.map_values(|t: (String, String, String)| row_view(t));
    let ghost kviews = known@.map_values(|x: String| x@);
    let mut out: Vec<WifiNet> = Vec::new();
    let mut i: usize = 0;
    proof {
        assert(rviews.take(0) =~= Seq::<(Seq<char>, Seq<char>, Seq<char>)>::empty());
        assert(out@.map_values(|n: WifiNet| n@) =~= nets_of(
            dedup_rows(rviews.take(0)),
            active@,
            kviews,
        ));
    }
    while i < rows.len()
        invariant
            i <= rows@.len(),
            rviews == rows@.map_values(|t: (String, String, String)| row_view(t)),
            kviews == known@.map_values(|x: String| x@),
            out@.map_values(|n: WifiNet| n@) == nets_of(
                dedup_rows(rviews.take(i as int)),
                active@,
                kviews,
            ),
        decreases rows@.len() - i,
    {
        proof {
            assert(rviews.take(i + 1).drop_last() =~= rviews.take(i as int));
            assert(rviews.take(i + 1).last() == rviews[i as int]);
        }
        let row = &rows[i];
        let nonempty = row.0.as_str().unicode_len() > 0;
        let seen = nets_have_ssid(&out, &row.0);
        proof {
            lemma_nets_ssids(dedup_rows(rviews.take(i as int)), active@, kviews, row.0@);
            lemma_dedup_occurs(rviews.take(i as int), row.0@);
        }
        let ghost d = dedup_rows(rviews.take(i as int));
        if nonempty && !seen {
            proof {
                assert(rviews[i as int].0 == row.0@);
                assert(!row_occurs(rviews.take(i as int), rviews[i as int].0));
                assert(dedup_rows(rviews.take(i + 1)) == d.push(rviews[i as int]));
                assert((d.push(rviews[i as int])).drop_last() =~= d);
                assert(nets_of(d.push(rviews[i as int]), active@, kviews) == nets_of(
                    d,
                    active@,
                    kviews,
                ).push(net_of_row(rviews[i as int], active@, kviews)));
            }
            let strength = parse_u8_str(row.1.as_str());
            let is_known = list_has_string(known, &row.0);
            let is_active = row.0 == *active;
            let net = WifiNet {
                ssid: row.0.clone(),
                strength,
                security: row.2.clone(),
                known: is_known,
                active: is_active,
            };
            proof {
                assert(net@ == net_of_row(rviews[i as int], active@, kviews));
                assert((out@.push(net)).map_values(|n: WifiNet| n@) =~= out@.map_values(
                    |n: WifiNet| n@,
                ).push(net@));
            }
            out.push(net);
        } else {
            proof {
                assert(rviews[i as int].0 == row.0@);
                if row.0@.len() > 0 {
                    assert(seen);
                    assert(row_occurs(rviews.take(i as int), rviews[i as int].0));
                }
                assert(dedup_rows(rviews.take(i + 1)) == d);
            }
        }
        i = i + 1;
    }
    proof {
        assert(rviews.take(rviews.len() as int) =~= rviews);
    }
    out
}

/// Scan order: the active network first, then by descending signal
/// strength.
pub open spec fn wifi_le(a: WifiNetView, b: WifiNetView) -> bool {
    if a.active != b.active {
        a.active
    } else {
        a.strength >= b.strength
    }
}

/// Every network in `outs` may stand before every network in `rests`.
pub open spec fn all_le(outs: Seq<WifiNetView>, rests: Seq<WifiNetView>) -> bool {
    forall|a: int, b: int|
        0 <= a < outs.len() && 0 <= b < rests.len() ==> wifi_le(
            #[trigger] outs[a],
            #[trigger] rests[b],
        )
}

pub open spec fn sorted_nets(s: Seq<WifiNetView>) -> bool {
    forall|i: int, j: int| 0 <= i < j < s.len() ==> wifi_le(s[i], s[j])
}

/// Runtime form of the scan order.
fn wifi_before(a: &WifiNet, b: &WifiNet) -> (r: bool)
    ensures
        r == wifi_le(a@, b@),
{
    if a.active != b.active {
        a.active
    } else {
        a.strength >= b.strength
    }
}

/// Sorts a scan's networks: active first, then by descending strength.
/// The result is a permutation of the input.
pub fn sort_networks(v: Vec<WifiNet>) -> (r: Vec<WifiNet>)
    ensures
        sorted_nets(r@.map_values(|n: WifiNet| n@)),
        r@.map_values(|n: WifiNet| n@).to_multiset() == v@.map_values(
            |n: WifiNet| n@,
        ).to_multiset(),
        r@.len() == v@.len(),
{
    let ghost orig = v@.map_values(|n: WifiNet| n@);
    let mut rest = v;
    let mut out: Vec<WifiNet> = Vec::new();
    proof {
        assert(out@.map_values(|n: WifiNet| n@) =~= Seq::<WifiNetView>::empty());
        assert(out@.map_values(|n: WifiNet| n@).to_multiset().add(
            rest@.map_values(|n: WifiNet| n@).to_multiset(),
        ) =~= orig.to_multiset());
        assert(all_le(out@.map_values(|n: WifiNet| n@), rest@.map_values(|n: WifiNet| n@)));
    }
    while rest.len() > 0
        invariant
            out@.map_values(|n: WifiNet| n@).to_multiset().add(
                rest@.map_values(|n: WifiNet| n@).to_multiset(),
            ) == orig.to_multiset(),
            out@.len() + rest@.len() == orig.len(),
            sorted_nets(out@.map_values(|n: WifiNet| n@)),
            all_le(out@.map_values(|n: WifiNet| n@), rest@.map_values(|n: WifiNet| n@)),
        decreases rest@.len(),
    {
        let ghost rv = rest@.map_values(|n: WifiNet| n@);
        let ghost ov = out@.map_values(|n: WifiNet| n@);
        let mut best: usize = 0;
        let mut k: usize = 1;
        while k < rest.len()
            invariant
                best < k <= rest@.len(),
                rest@.len() > 0,
                rv == rest@.map_values(|n: WifiNet| n@),
                forall|m: int| 0 <= m < k ==> wifi_le(rv[best as int], rv[m]),
            decreases rest@.len() - k,
        {
            if wifi_before(&rest[k], &rest[best]) {
                best = k;
                proof {
                    assert forall|m: int| 0 <= m < k + 1 implies wifi_le(
                        rv[best as int],
                        rv[m],
                    ) by {}
                }
            }
            k = k + 1;
        }
        let x = rest.remove(best);
        proof {
            assert(rest@.map_values(|n: WifiNet| n@) =~= rv.remove(best as int));
            assert(x@ == rv[best as int]);
            assert((out@.push(x)).map_values(|n: WifiNet| n@) =~= ov.push(x@));
            assert(ov.push(x@).to_multiset().add(rv.remove(best as int).to_multiset())
                =~= ov.to_multiset().add(rv.to_multiset()));
        }
        out.push(x);
        proof {
            let nv = out@.map_values(|n: WifiNet| n@);
            let rv2 = rest@.map_values(|n: WifiNet| n@);
            assert forall|a: int, b: int|
                0 <= a < nv.len() && 0 <= b < rv2.len() implies wifi_le(
                #[trigger] nv[a],
                #[trigger] rv2[b],
            ) by {
                assert(rv2 == rv.remove(best as int));
                if b < best {
                    assert(rv2[b] == rv[b]);
                } else {
                    assert(rv2[b] == rv[b + 1]);
                }
                if a < nv.len() - 1 {
                    assert(nv[a] == ov[a]);
                } else {
                    assert(nv[a] == x@);
                }
            }
            assert forall|a: int, b: int| 0 <= a < b < nv.len() implies wifi_le(
                #[trigger] nv[a],
                #[trigger] nv[b],
            ) by {
                if b < nv.len() - 1 {
                    assert(nv[a] == ov[a] && nv[b] == ov[b]);
                } else {
                    assert(nv[b] == x@);
                    if a < nv.len() - 1 {
                        assert(nv[a] == ov[a]);
                        assert(wifi_le(ov[a], rv[best as int]));
                    }
                }
            }
        }
    }
    proof {
        assert(rest@.map_values(|n: WifiNet| n@) =~= Seq::<WifiNetView>::empty());
        assert(rest@.map_values(|n: WifiNet| n@).to_multiset() =~= Multiset::<
            WifiNetView,
        >::empty());
        assert(out@.map_values(|n: WifiNet| n@).to_multiset().add(Multiset::empty())
            =~= out@.map_values(|n: WifiNet| n@).to_multiset());
    }
    out
}

/// Every index of `nets_of` is the image of the same row index.
pub proof fn lemma_nets_of_index(
    rows: Seq<(Seq<char>, Seq<char>, Seq<char>)>,
    active: Seq<char>,
    known: Seq<Seq<char>>,
)
    ensures
        nets_of(rows, active, known).len() == rows.len(),
        forall|k: int|
            0 <= k < rows.len() ==> nets_of(rows, active, known)[k] == net_of_row(
                #[trigger] rows[k],
                active,
                known,
            ),
    decreases rows.len(),
{
    if rows.len() > 0 {
        lemma_nets_of_index(rows.drop_last(), active, known);
        assert forall|k: int| 0 <= k < rows.len() implies nets_of(rows, active, known)[k]
            == net_of_row(#[trigger] rows[k], active, known) by {
            if k < rows.len() - 1 {
                assert(rows.drop_last()[k] == rows[k]);
            }
        }
    }
}

/// The deduplicated rows have pairwise distinct ssids.
pub proof fn lemma_dedup_unique(rows: Seq<(Seq<char>, Seq<char>, Seq<char>)>)
    ensures
        forall|i: int, j: int|
            0 <= i < j < dedup_rows(rows).len() ==> (#[trigger] dedup_rows(rows)[i]).0 != (
            #[trigger] dedup_rows(rows)[j]).0,
    decreases rows.len(),
{
    if rows.len() > 0 {
        lemma_dedup_unique(rows.drop_last());
        let d = dedup_rows(rows.drop_last());
        let whole = dedup_rows(rows);
        if rows.last().0.len() > 0 && !row_occurs(rows.drop_last(), rows.last().0) {
            lemma_dedup_occurs(rows.drop_last(), rows.last().0);
            assert(!row_occurs(d, rows.last().0));
            assert forall|i: int, j: int| 0 <= i < j < whole.len() implies (
            #[trigger] whole[i]).0 != (#[trigger] whole[j]).0 by {
                if j < d.len() {
                    assert(whole[i] == d[i] && whole[j] == d[j]);
                } else {
                    assert(whole[j] == rows.last());
                    assert(whole[i] == d[i]);
                    if d[i].0 == rows.last().0 {
                        assert(row_occurs(d, rows.last().0));
                    }
                }
            }
        }
    }
}

/// The full scan pipeline from the tool's table: parse, deduplicate by
/// ssid, flag against the active connection and known profiles, and order
/// with the active network first, then by descending strength. The result
/// is unique per ssid and at most one entry is active.
pub fn scan_from_output(out: &str, active: &String, known: &Vec<String>) -> (r: Vec<WifiNet>)
    ensures
        sorted_nets(r@.map_values(|n: WifiNet| n@)),
        r@.map_values(|n: WifiNet| n@).to_multiset() == nets_of(
            dedup_rows(scan_rows(lines_seq(out@))),
            active@,
            known@.map_values(|x: String| x@),
        ).to_multiset(),
        forall|i: int, j: int|
            0 <= i < j < r@.len() ==> (#[trigger] r@[i]).ssid@ != (#[trigger] r@[j]).ssid@,
        forall|i: int, j: int|
            0 <= i < j < r@.len() ==> !((#[trigger] r@[i]).active && (#[trigger] r@[j]).active),
{
    let rows = parse_scan_rows(out);
    let nets = build_networks(&rows, active, known);
    let r = sort_networks(nets);
    proof {
        let rowsv = scan_rows(lines_seq(out@));
        let d = dedup_rows(rowsv);
        let kviews = known@.map_values(|x: String| x@);
        let netsv = nets_of(d, active@, kviews);
        let rv = r@.map_values(|n: WifiNet| n@);
        lemma_dedup_unique(rowsv);
        lemma_nets_of_index(d, active@, kviews);
        assert forall|a: int, b: int| 0 <= a < b < netsv.len() implies #[trigger] netsv[a]
            != #[trigger] netsv[b] by {
            assert(netsv[a].ssid == d[a].0 && netsv[b].ssid == d[b].0);
        }
        assert(netsv.no_duplicates());
        netsv.lemma_multiset_has_no_duplicates();
        assert(forall|x: WifiNetView|
            rv.to_multiset().contains(x) ==> rv.to_multiset().count(x) == 1);
        rv.lemma_multiset_has_no_duplicates_conv();
        assert forall|i: int, j: int| 0 <= i < j < rv.len() implies (#[trigger] rv[i]).ssid != (
        #[trigger] rv[j]).ssid && !(rv[i].active && rv[j].active) by {
            assert(rv.contains(rv[i]));
            assert(rv.to_multiset().count(rv[i]) > 0);
            assert(netsv.to_multiset().count(rv[i]) > 0);
            assert(netsv.contains(rv[i]));
            let k1 = choose|k: int| 0 <= k < netsv.len() && netsv[k] == rv[i];
            assert(rv.contains(rv[j]));
            assert(rv.to_multiset().count(rv[j]) > 0);
            assert(netsv.to_multiset().count(rv[j]) > 0);
            assert(netsv.contains(rv[j]));
            let k2 = choose|k: int| 0 <= k < netsv.len() && netsv[k] == rv[j];
            assert(rv.no_duplicates());
            assert(rv[i] != rv[j]);
            assert(k1 != k2);
            assert(netsv[k1].ssid == d[k1].0 && netsv[k2].ssid == d[k2].0);
            assert(d[k1].0 != d[k2].0);
            if rv[i].active && rv[j].active {
                assert(netsv[k1].ssid == active@ && netsv[k2].ssid == active@);
            }
        }
        assert forall|i: int, j: int| 0 <= i < j < r@.len() implies (#[trigger] r@[i]).ssid@ != (
        #[trigger] r@[j]).ssid@ by {
            assert(rv[i] == r@[i]@ && rv[j] == r@[j]@);
        }
        assert forall|i: int, j: int| 0 <= i < j < r@.len() implies !((#[trigger] r@[i]).active
            && (#[trigger] r@[j]).active) by {
            assert(rv[i] == r@[i]@ && rv[j] == r@[j]@);
        }
    }
    r
}

/// Connectivity as classified from the tool's status output: connected
/// exactly when some whitespace-separated word of the output is the state
/// word "connected" itself — the word "disconnected" does not count.
pub fn classify_state(out: &str) -> (r: NetworkStatus)
    ensures
        r == (if seq_has(tokens_seq(out@), "connected"@) {
            NetworkStatus::Connected
        } else {
            NetworkStatus::Disconnected
        }),
{
    let toks = tokens(out);
    let word = String::from_str("connected");
    proof {
        assert(word@ == "connected"@);
    }
    if list_has_string(&toks, &word) {
        NetworkStatus::Connected
    } else {
        NetworkStatus::Disconnected
    }
}

/// A connection listing line that names a real uplink rather than the
/// loopback or a virtual bridge.
pub open spec fn plausible_connection_name(l: Seq<char>) -> bool {
    l != "lo"@ && !contains_seq(l, "docker"@) && !contains_seq(l, "virbr"@)
}

/// The first plausible name among the lines, or empty when there is none.
pub open spec fn first_active_name(ls: Seq<Seq<char>>) -> Seq<char>
    decreases ls.len(),
{
    if ls.len() == 0 {
        Seq::empty()
    } else if plausible_connection_name(ls[0]) {
        ls[0]
    } else {
        first_active_name(ls.skip(1))
    }
}

/// Picks the active connection's name out of the active-connection listing:
/// the first line that is neither the loopback nor a virtual bridge.
pub fn pick_active_ssid(out: &str) -> (r: String)
    ensures
        r@ == first_active_name(lines_seq(out@)),
{
    let ls = lines(out);
    let ghost lviews = ls@.map_values(|x: String| x@);
    proof {
        assert(lviews =~= lines_seq(out@));
    }
    let lo = String::from_str("lo");
    let mut i: usize = 0;
    proof {
        assert(lviews.skip(0) =~= lviews);
    }
    while i < ls.len()
        invariant
            i <= ls@.len(),
            lviews == ls@.map_values(|x: String| x@),
            lviews == lines_seq(out@),
            lo@ == "lo"@,
            first_active_name(lviews) == first_active_name(lviews.skip(i as int)),
        decreases ls@.len() - i,
    {
        let good = ls[i] != lo && !contains_str(ls[i].as_str(), "docker") && !contains_str(
            ls[i].as_str(),
            "virbr",
        );
        proof {
            assert(lviews.skip(i as int)[0] == lviews[i as int]);
            assert(lviews.skip(i as int).skip(1) =~= lviews.skip(i + 1));
        }
        if good {
            proof {
                assert(plausible_connection_name(lviews[i as int]));
                assert(first_active_name(lviews.skip(i as int)) == lviews[i as int]);
                assert(ls@[i as int]@ == lviews[i as int]);
                assert(first_active_name(lines_seq(out@)) == lviews[i as int]);
            }
            return ls[i].clone();
        }
        i = i + 1;
    }
    proof {
        assert(lviews.skip(lviews.len() as int) =~= Seq::<Seq<char>>::empty());
    }
    String::new()
}

/// The reply a connect attempt hands back: "OK" on success, "PASS_REQ" when
/// the tool demanded credentials, the tool's own error text otherwise.
pub open spec fn connect_reply(ok: bool, err: Seq<char>) -> Seq<char> {
    if ok {
        "OK"@
    } else if contains_seq(err, "Secrets were required"@) {
        "PASS_REQ"@
    } else {
        err
    }
}

/// Classifies a connect attempt: `None` stands for a failure to run the
/// tool at all.
pub fn classify_connect(outcome: Option<(bool, String)>) -> (r: String)
    ensures
        match outcome {
            Some(o) => r@ == connect_reply(o.0, o.1@),
            None => r@ == "Error"@,
        },
{
    match outcome {
        Some((ok, err)) => {
            if ok {
                String::from_str("OK")
            } else if contains_str(err.as_str(), "Secrets were required") {
                String::from_str("PASS_REQ")
            } else {
                err
            }
        },
        None => String::from_str("Error"),
    }
}

/// Whether a connect attempt must first drop the stored profile: exactly
/// when a password was supplied.
pub fn connect_requires_reset(pass: &str) -> (r: bool)
    ensures
        r == (pass@.len() > 0),
{
    !pass.is_empty()
}

/// The network subsystem's bus face; every operation is an external tool
/// invocation around the verified parsing above.
pub struct NetworkService;

/// Keeps the connectivity cache synchronized with the sampled tool state
/// and emits one change event per observed transition.
pub struct NetworkMonitor {
    cache: DomainCache<NetworkStatus>,
}

impl NetworkMonitor {
    /// The cached connectivity, for contracts.
    pub closed spec fn value(self) -> NetworkStatus {
        self.cache.spec_value()
    }

    /// A monitor whose cache starts out unknown.
    pub fn new() -> (r: Self)
        ensures
            r.value() == NetworkStatus::Unknown,
    {
        NetworkMonitor { cache: DomainCache::new(NetworkStatus::Unknown) }
    }

    /// The last committed connectivity, without consulting the tool.
    pub fn read(&self) -> (r: NetworkStatus)
        ensures
            r == self.value(),
    {
        self.cache.read()
    }

    /// The startup seed: one best-effort read is committed without any
    /// event being emitted.
    pub fn seed(&mut self, v: NetworkStatus)
        ensures
            final(self).value() == v,
    {
        self.cache.write(v);
    }

    /// One monitor cycle: diff the fresh sample against the cache; on a
    /// difference commit it and emit exactly one change event carrying it.
    pub fn step(&mut self, sample: NetworkStatus) -> (emit: Option<NetworkStatus>)
        ensures
            final(self).value() == sample,
            emit == (if sample == old(self).value() {
                None::<NetworkStatus>
            } else {
                Some(sample)
            }),
            monitor_outputs(old(self).value(), seq![sample]) == (match emit {
                None => Seq::<NetworkStatus>::empty(),
                Some(e) => seq![e],
            }),
    {
        proof {
            let init = old(self).value();
            assert(seq![sample].skip(1) =~= Seq::<NetworkStatus>::empty());
            assert(monitor_outputs(init, Seq::<NetworkStatus>::empty()) =~= Seq::<
                NetworkStatus,
            >::empty());
            assert(monitor_outputs(sample, Seq::<NetworkStatus>::empty()) =~= Seq::<
                NetworkStatus,
            >::empty());
            if sample == init {
                assert(monitor_outputs(init, seq![sample]) =~= Seq::<NetworkStatus>::empty());
            } else {
                assert(monitor_outputs(init, seq![sample]) =~= seq![sample]);
            }
        }
        let cur = self.cache.read();
        if sample == cur {
            None
        } else {
            self.cache.write(sample);
            Some(sample)
        }
    }

    /// Feeds a whole sequence of samples: the emitted events are exactly
    /// the value transitions, in order.
    pub fn feed(&mut self, samples: &Vec<NetworkStatus>) -> (events: Vec<NetworkStatus>)
        ensures
            events@ == monitor_outputs(old(self).value(), samples@),
            final(self).value() == current_value(old(self).value(), samples@),
    {
        let ghost init = self.value();
        let mut events: Vec<NetworkStatus> = Vec::new();
        let mut i: usize = 0;
        proof {
            assert(samples@.take(0) =~= Seq::<NetworkStatus>::empty());
            assert(events@ =~= monitor_outputs(init, samples@.take(0)));
        }
        while i < samples.len()
            invariant
                i <= samples@.len(),
                events@ == monitor_outputs(init, samples@.take(i as int)),
                self.value() == current_value(init, samples@.take(i as int)),
            decreases samples@.len() - i,
        {
            proof {
                crate::monitor::lemma_monitor_outputs_push(
                    init,
                    samples@.take(i as int),
                    samples@[i as int],
                );
                assert(samples@.take(i as int).push(samples@[i as int]) =~= samples@.take(i + 1));
            }
            let e = self.step(samples[i]);
            match e {
                Some(v) => {
                    events.push(v);
                },
                None => {},
            }
            i = i + 1;
        }
        proof {
            assert(samples@.take(samples@.len() as int) =~= samples@);
        }
        events
    }
}

} // verus!