//! The registry of observed egress addresses: a document of entries, one per
//! distinct address, stored as a whole.

use vstd::prelude::*;

verus! {

/// What kind of observation an entry records.
#[derive(Clone, Copy, Debug, PartialEq, Eq, Structural)]
pub enum IPDataType {
    /// An address seen as the egress of a relay after a tunnel was set up.
    ConfimedVpngateEgress,
}

/// One address of the registry.
#[derive(Clone, Debug)]
pub struct IPDataEntry {
    pub ip: String,
    pub type_: IPDataType,
    /// Unix time, in seconds, of the latest sighting.
    pub last_sighting: u64,
    /// How many times the address was seen; at least one.
    pub sightings: u32,
}

/// The mathematical value of an entry.
pub ghost struct EntryView {
    pub ip: Seq<char>,
    pub kind: IPDataType,
    pub last_sighting: u64,
    pub sightings: u32,
}

impl View for IPDataEntry {
    type V = EntryView;

    open spec fn view(&self) -> EntryView {
        EntryView {
            ip: self.ip@,
            kind: self.type_,
            last_sighting: self.last_sighting,
            sightings: self.sightings,
        }
    }
}

/// The value of a whole document.
pub open spec fn doc_view(doc: Seq<IPDataEntry>) -> Seq<EntryView> {
    doc.map_values(|e: IPDataEntry| e@)
}

/// No two entries of a document share an address.
pub open spec fn unique_ips(doc: Seq<EntryView>) -> bool {
    forall|i: int, j: int|
        0 <= i < doc.len() && 0 <= j < doc.len() && i != j ==> #[trigger] doc[i].ip != #[trigger] doc[j].ip
}

/// A well-formed document: addresses are unique and each entry was seen at least once.
pub open spec fn wf_doc(doc: Seq<EntryView>) -> bool {
    &&& unique_ips(doc)
    &&& forall|i: int| 0 <= i < doc.len() ==> #[trigger] doc[i].sightings >= 1
}

/// Whether some entry of the document holds this address.
pub open spec fn holds_ip(doc: Seq<EntryView>, ip: Seq<char>) -> bool {
    exists|i: int| 0 <= i < doc.len() && #[trigger] doc[i].ip == ip
}

/// The document without the entries of this address, in order.
pub open spec fn without_ip(doc: Seq<EntryView>, ip: Seq<char>) -> Seq<EntryView>
    decreases doc.len(),
{
    if doc.len() == 0 {
        doc
    } else {
        let rest = without_ip(doc.drop_last(), ip);
        if doc.last().ip == ip {
            rest
        } else {
            rest.push(doc.last())
        }
    }
}

/// The count of the entry of this address, where the document holds one (the
/// earliest, should it hold several); zero where it holds none.
pub open spec fn first_count(doc: Seq<EntryView>, ip: Seq<char>) -> nat
    decreases doc.len(),
{
    if doc.len() == 0 {
        0
    } else if holds_ip(doc.drop_last(), ip) {
        first_count(doc.drop_last(), ip)
    } else if doc.last().ip == ip {
        doc.last().sightings as nat
    } else {
        0
    }
}

/// The count after one more sighting, held at the largest value of its type.
pub open spec fn next_count(count: nat) -> u32 {
    if count >= u32::MAX {
        u32::MAX
    } else {
        (count + 1) as u32
    }
}

/// The document after a sighting of `ip` at time `now`: any entry of the
/// address leaves its place, and the entry with the new count and time goes
/// to the end.
pub open spec fn reconciled(doc: Seq<EntryView>, ip: Seq<char>, now: u64) -> Seq<EntryView> {
    without_ip(doc, ip).push(
        EntryView {
            ip,
            kind: IPDataType::ConfimedVpngateEgress,
            last_sighting: now,
            sightings: next_count(first_count(doc, ip)),
        },
    )
}

/// What a sighting did to the document.
#[derive(Clone, Copy, Debug, PartialEq, Eq, Structural)]
pub enum ReconcileKind {
    /// The address was new: its entry was added with one sighting.
    Created,
    /// The address was known: its entry moved to the end with one more sighting.
    Updated,
}

proof fn lemma_holds_ip_push(doc: Seq<EntryView>, e: EntryView, ip: Seq<char>)
    ensures
        holds_ip(doc.push(e), ip) == (holds_ip(doc, ip) || e.ip == ip),
{
    let d2 = doc.push(e);
    if holds_ip(doc, ip) {
        let i = choose|i: int| 0 <= i < doc.len() && #[trigger] doc[i].ip == ip;
        assert(d2[i].ip == ip);
    }
    if e.ip == ip {
        assert(d2[doc.len() as int].ip == ip);
    }
    if holds_ip(d2, ip) {
        let i = choose|i: int| 0 <= i < d2.len() && #[trigger] d2[i].ip == ip;
        if i < doc.len() {
            assert(doc[i].ip == ip);
        }
    }
}

proof fn lemma_not_holds_count(doc: Seq<EntryView>, ip: Seq<char>)
    requires
        !holds_ip(doc, ip),
    ensures
        first_count(doc, ip) == 0,
{
    if doc.len() > 0 {
        assert(doc.drop_last().push(doc.last()) =~= doc);
        lemma_holds_ip_push(doc.drop_last(), doc.last(), ip);
    }
}

/// Every entry left by `without_ip` comes from the document and is not of `ip`.
proof fn lemma_without_ip_entries(doc: Seq<EntryView>, ip: Seq<char>)
    ensures
        forall|k: int|
            0 <= k < without_ip(doc, ip).len() ==> doc.contains(#[trigger] without_ip(doc, ip)[k])
                && without_ip(doc, ip)[k].ip != ip,
        !holds_ip(without_ip(doc, ip), ip),
        without_ip(doc, ip).len() <= doc.len(),
    decreases doc.len(),
{
    if doc.len() > 0 {
        let d0 = doc.drop_last();
        lemma_without_ip_entries(d0, ip);
        let w0 = without_ip(d0, ip);
        assert forall|k: int| 0 <= k < without_ip(doc, ip).len() implies doc.contains(
            #[trigger] without_ip(doc, ip)[k],
        ) && without_ip(doc, ip)[k].ip != ip by {
            if k < w0.len() {
                let j = choose|j: int| 0 <= j < d0.len() && d0[j] == w0[k];
                assert(doc[j] == w0[k]);
            } else {
                assert(doc[doc.len() - 1] == doc.last());
            }
        }
    }
}

/// Removing an address keeps the addresses unique.
proof fn lemma_without_ip_unique(doc: Seq<EntryView>, ip: Seq<char>)
    requires
        unique_ips(doc),
    ensures
        unique_ips(without_ip(doc, ip)),
    decreases doc.len(),
{
    if doc.len() > 0 {
        let d0 = doc.drop_last();
        assert(unique_ips(d0)) by {
            assert forall|i: int, j: int|
                0 <= i < d0.len() && 0 <= j < d0.len() && i != j implies #[trigger] d0[i].ip
                != #[trigger] d0[j].ip by {
                assert(doc[i] == d0[i] && doc[j] == d0[j]);
            }
        }
        lemma_without_ip_unique(d0, ip);
        lemma_without_ip_entries(d0, ip);
        let w0 = without_ip(d0, ip);
        if doc.last().ip != ip {
            let w = w0.push(doc.last());
            assert forall|i: int, j: int|
                0 <= i < w.len() && 0 <= j < w.len() && i != j implies #[trigger] w[i].ip
                != #[trigger] w[j].ip by {
                if i < w0.len() && j < w0.len() {
                } else if i < w0.len() {
                    let a = choose|a: int| 0 <= a < d0.len() && d0[a] == w0[i];
                    assert(doc[a] == d0[a]);
                    assert(doc[doc.len() - 1] == doc.last());
                } else {
                    let a = choose|a: int| 0 <= a < d0.len() && d0[a] == w0[j];
                    assert(doc[a] == d0[a]);
                    assert(doc[doc.len() - 1] == doc.last());
                }
            }
        }
    }
}

/// A sighting keeps a document well formed, and leaves exactly one entry of
/// the address, at the end.
pub proof fn lemma_reconciled_wf(doc: Seq<EntryView>, ip: Seq<char>, now: u64)
    ensures
        wf_doc(doc) ==> wf_doc(reconciled(doc, ip, now)),
        reconciled(doc, ip, now).last().ip == ip,
        !holds_ip(reconciled(doc, ip, now).drop_last(), ip),
{
    let w = without_ip(doc, ip);
    let r = reconciled(doc, ip, now);
    lemma_without_ip_entries(doc, ip);
    assert(r.drop_last() =~= w);
    if wf_doc(doc) {
        lemma_without_ip_unique(doc, ip);
        assert forall|i: int, j: int|
            0 <= i < r.len() && 0 <= j < r.len() && i != j implies #[trigger] r[i].ip
            != #[trigger] r[j].ip by {
            if i < w.len() && j < w.len() {
                assert(r[i] == w[i] && r[j] == w[j]);
            } else if i < w.len() {
                assert(r[i] == w[i]);
            } else {
                assert(r[j] == w[j]);
            }
        }
        assert forall|i: int| 0 <= i < r.len() implies #[trigger] r[i].sightings >= 1 by {
            if i < w.len() {
                assert(r[i] == w[i]);
                let a = choose|a: int| 0 <= a < doc.len() && doc[a] == w[i];
            }
        }
    }
}

/// Sighting the same new address twice leaves one entry of it, at the end,
/// with two sightings and the time of the second.
pub proof fn lemma_repeat_sighting(doc: Seq<EntryView>, ip: Seq<char>, t1: u64, t2: u64)
    requires
        !holds_ip(doc, ip),
    ensures
        reconciled(reconciled(doc, ip, t1), ip, t2).last() == (EntryView {
            ip,
            kind: IPDataType::ConfimedVpngateEgress,
            last_sighting: t2,
            sightings: 2,
        }),
        !holds_ip(reconciled(reconciled(doc, ip, t1), ip, t2).drop_last(), ip),
        reconciled(reconciled(doc, ip, t1), ip, t2).len() == doc.len() + 1,
{
    let r1 = reconciled(doc, ip, t1);
    lemma_not_holds_count(doc, ip);
    lemma_reconciled_wf(doc, ip, t1);
    lemma_reconciled_wf(r1, ip, t2);
    assert(r1.drop_last().push(r1.last()) =~= r1);
    assert(first_count(r1, ip) == 1);
    lemma_without_ip_same(doc, ip);
    assert(r1.drop_last() =~= doc);
    assert(without_ip(r1, ip) == without_ip(doc, ip));
}

/// Without entries of the address, removing it changes nothing.
proof fn lemma_without_ip_same(doc: Seq<EntryView>, ip: Seq<char>)
    requires
        !holds_ip(doc, ip),
    ensures
        without_ip(doc, ip) == doc,
    decreases doc.len(),
{
    if doc.len() > 0 {
        let d0 = doc.drop_last();
        assert(d0.push(doc.last()) =~= doc);
        lemma_holds_ip_push(d0, doc.last(), ip);
        lemma_without_ip_same(d0, ip);
    }
}

/// Sightings of two distinct new addresses give two distinct entries, each
/// with one sighting, at the end in the order of the sightings.
pub proof fn lemma_distinct_sightings(
    doc: Seq<EntryView>,
    a: Seq<char>,
    b: Seq<char>,
    t1: u64,
    t2: u64,
)
    requires
        a != b,
        !holds_ip(doc, a),
        !holds_ip(doc, b),
    ensures
        ({
            let r = reconciled(reconciled(doc, a, t1), b, t2);
            &&& r.len() == doc.len() + 2
            &&& r[r.len() - 2] == (EntryView {
                ip: a,
                kind: IPDataType::ConfimedVpngateEgress,
                last_sighting: t1,
                sightings: 1,
            })
            &&& r[r.len() - 1] == (EntryView {
                ip: b,
                kind: IPDataType::ConfimedVpngateEgress,
                last_sighting: t2,
                sightings: 1,
            })
        }),
{
    let r1 = reconciled(doc, a, t1);
    lemma_not_holds_count(doc, a);
    lemma_without_ip_same(doc, a);
    lemma_holds_ip_push(doc, r1.last(), b);
    assert(r1 =~= doc.push(r1.last()));
    lemma_not_holds_count(r1, b);
    lemma_without_ip_same(r1, b);
}

fn copy_entry(e: &IPDataEntry) -> (r: IPDataEntry)
    ensures
        r@ == e@,
{
    IPDataEntry {
        ip: e.ip.clone(),
        type_: e.type_,
        last_sighting: e.last_sighting,
        sightings: e.sightings,
    }
}

/// Records a sighting of `ip` at Unix time `now`: an entry of the address
/// leaves its place and comes back at the end with one more sighting and the
/// new time; a new address gets an entry with one sighting.
pub fn reconcile(doc: &mut Vec<IPDataEntry>, ip: &String, now: u64) -> (r: ReconcileKind)
    ensures
        doc_view(final(doc)@) == reconciled(doc_view(old(doc)@), ip@, now),
        r == (if holds_ip(doc_view(old(doc)@), ip@) {
            ReconcileKind::Updated
        } else {
            ReconcileKind::Created
        }),
        wf_doc(doc_view(old(doc)@)) ==> wf_doc(doc_view(final(doc)@)),
{
    let ghost d = doc_view(doc@);
    let mut kept: Vec<IPDataEntry> = Vec::new();
    let mut found = false;
    let mut count: u32 = 0;
    let mut i: usize = 0;
    while i < doc.len()
        invariant
            i <= doc.len(),
            d == doc_view(doc@),
            doc_view(kept@) == without_ip(d.take(i as int), ip@),
            found == holds_ip(d.take(i as int), ip@),
            count as nat == first_count(d.take(i as int), ip@),
        decreases doc.len() - i,
    {
        let ghost pre = d.take(i as int);
        let ghost next = d.take(i as int + 1);
        proof {
            assert(next.drop_last() =~= pre);
            assert(next.last() == doc[i as int]@);
            lemma_holds_ip_push(pre, doc[i as int]@, ip@);
            assert(pre.push(doc[i as int]@) =~= next);
        }
        if doc[i].ip == *ip {
            if !found {
                count = doc[i].sightings;
                found = true;
            }
        } else {
            let e = copy_entry(&doc[i]);
            let ghost before = kept@;
            kept.push(e);
            proof {
                assert(doc_view(kept@) =~= doc_view(before).push(e@));
            }
        }
        i = i + 1;
    }
    proof {
        assert(d.take(d.len() as int) =~= d);
    }
    let sightings: u32 = if found {
        if count == u32::MAX {
            u32::MAX
        } else {
            count + 1
        }
    } else {
        1
    };
    proof {
        if !found {
            lemma_not_holds_count(d, ip@);
        }
    }
    let entry = IPDataEntry {
        ip: ip.clone(),
        type_: IPDataType::ConfimedVpngateEgress,
        last_sighting: now,
        sightings,
    };
    let ghost before_last = kept@;
    kept.push(entry);
    proof {
        assert(doc_view(kept@) =~= doc_view(before_last).push(entry@));
        lemma_reconciled_wf(d, ip@, now);
    }
    *doc = kept;
    if found {
        ReconcileKind::Updated
    } else {
        ReconcileKind::Created
    }
}

} // verus!
