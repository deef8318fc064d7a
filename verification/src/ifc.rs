//! The document driver: a document is a header section, a record
//! section of `#<id>=<RECORD>` lines, and a footer. Parsing splits the
//! header at the `DATA;` marker, reads each record line under its
//! declared identifier, and advances the allocator past every
//! identifier seen; rendering walks the store in ascending identifier
//! order and concatenates the sections back.

use crate::codec::{
    is_ws_char, lemma_sp_ws_noop, lemma_subrange_slice, lit_matches, skip_ws, sp_char, sp_ws,
    ErrorKind, ParseError,
};
use crate::datamap::{
    lemma_record_round_trip, lemma_sp_record_wf, rd_record, sp_record, wf_record, DataMap,
    ParsedIfcType, Record, RecordV,
};
use crate::grammar::{lemma_id_round_trip, parse_id_at, rd_id, sp_id, wf_id, render_id};
use crate::id::{Id, IdOr, TypedId};
use vstd::prelude::*;

verus! {

/// The token that closes the header section.
pub open spec fn marker() -> Seq<char> {
    "DATA;"@
}

/// The least position at or after `i` where the marker stands.
pub open spec fn sp_find_marker(s: Seq<char>, i: int) -> Option<int>
    decreases s.len() - i,
{
    if 0 <= i && i < s.len() && i + marker().len() <= s.len() {
        if s.subrange(i, i + marker().len()) == marker() {
            Some(i)
        } else {
            sp_find_marker(s, i + 1)
        }
    } else {
        None
    }
}

/// One record line: a reference, `=`, then the record, and the line
/// break that rendering puts after it. Identifiers at the very top of
/// the range are rejected so the allocator can always move past them.
pub open spec fn sp_entry(s: Seq<char>, i: int) -> Option<((u64, RecordV), int)> {
    match sp_id(s, i) {
        None => None,
        Some((n, p)) => if n < u64::MAX {
            match sp_char(s, p, '=') {
                None => None,
                Some(p2) => match sp_record(s, p2) {
                    None => None,
                    Some((v, p3)) => Some(((n, v), p3)),
                },
            }
        } else {
            None
        },
    }
}

/// The record section: record lines as long as a `#` follows, then the
/// position where the footer starts (after any closing whitespace).
pub open spec fn sp_entries(s: Seq<char>, i: int) -> Option<(Seq<(u64, RecordV)>, int)>
    decreases s.len() - i,
{
    if !(0 <= i <= s.len()) {
        None
    } else {
        let j = sp_ws(s, i);
        if i <= j && j < s.len() && s[j] == '#' {
            match sp_entry(s, j) {
                None => None,
                Some((e, p)) => if j < p <= s.len() {
                    match sp_entries(s, p) {
                        None => None,
                        Some((rest, f)) => Some((seq![e] + rest, f)),
                    }
                } else {
                    None
                },
            }
        } else {
            Some((Seq::empty(), j))
        }
    }
}

/// A whole document: the header through the marker, the record
/// section, and the footer verbatim.
pub open spec fn sp_document(s: Seq<char>) -> Option<
    (Seq<char>, Seq<(u64, RecordV)>, Seq<char>),
> {
    match sp_find_marker(s, 0) {
        None => None,
        Some(m) => {
            let h = s.subrange(0, m + marker().len());
            match sp_entries(s, m + marker().len()) {
                None => None,
                Some((es, f)) => Some((h, es, s.subrange(f, s.len() as int))),
            }
        },
    }
}

/// The canonical text of one record line.
pub open spec fn rd_entry(e: (u64, RecordV)) -> Seq<char> {
    rd_id(e.0) + seq!['='] + rd_record(e.1) + seq!['\n']
}

/// The canonical text of the record section.
pub open spec fn rd_entries(es: Seq<(u64, RecordV)>) -> Seq<char>
    decreases es.len(),
{
    if es.len() == 0 {
        Seq::empty()
    } else {
        rd_entry(es[0]) + rd_entries(es.drop_first())
    }
}

/// The canonical text of a whole document.
pub open spec fn rd_document_v(
    h: Seq<char>,
    es: Seq<(u64, RecordV)>,
    f: Seq<char>,
) -> Seq<char> {
    h + rd_entries(es) + f
}

/// A canonical header: it ends with the marker and holds no earlier
/// occurrence of it.
pub open spec fn header_wf(h: Seq<char>) -> bool {
    &&& h.len() >= marker().len()
    &&& h.subrange(h.len() - marker().len(), h.len() as int) == marker()
    &&& forall|k: int|
        0 <= k < h.len() - marker().len() ==> #[trigger] h.subrange(k, k + marker().len())
            != marker()
}

/// A canonical footer: empty, or starting with a character that closes
/// the record section.
pub open spec fn footer_wf(f: Seq<char>) -> bool {
    f.len() == 0 || (!is_ws_char(f[0]) && f[0] != '#')
}

/// A canonical record section: identifiers strictly ascending, in the
/// valid range, and every record well formed.
pub open spec fn entries_wf(es: Seq<(u64, RecordV)>) -> bool {
    &&& forall|a: int, b: int|
        0 <= a < b < es.len() ==> #[trigger] es[a].0 < #[trigger] es[b].0
    &&& forall|k: int|
        0 <= k < es.len() ==> 1 <= (#[trigger] es[k].0) < u64::MAX
    &&& forall|k: int| 0 <= k < es.len() ==> wf_record((#[trigger] es[k]).1)
}

/// A canonical document.
pub open spec fn doc_wf(h: Seq<char>, es: Seq<(u64, RecordV)>, f: Seq<char>) -> bool {
    header_wf(h) && entries_wf(es) && footer_wf(f)
}

/// Scanning finds the marker exactly where no earlier occurrence
/// exists.
proof fn lemma_find_marker_at(s: Seq<char>, i: int, m: int)
    requires
        0 <= i <= m,
        m + marker().len() <= s.len(),
        s.subrange(m, m + marker().len()) == marker(),
        forall|k: int|
            i <= k < m ==> #[trigger] s.subrange(k, k + marker().len()) != marker(),
    ensures
        sp_find_marker(s, i) == Some(m),
    decreases m - i,
{
    reveal_strlit("DATA;");
    assert(marker().len() == 5);
    if i < m {
        lemma_find_marker_at(s, i + 1, m);
    }
}

/// One rendered record line parses back to its record.
proof fn lemma_entry_round_trip(s: Seq<char>, i: int, e: (u64, RecordV))
    requires
        0 <= i,
        i + rd_entry(e).len() <= s.len(),
        s.subrange(i, i + rd_entry(e).len()) == rd_entry(e),
        1 <= e.0 < u64::MAX,
        wf_record(e.1),
    ensures
        sp_entry(s, i) == Some((e, i + rd_entry(e).len() - 1)),
{
    let x = rd_entry(e);
    let li = rd_id(e.0).len() as int;
    let lr = rd_record(e.1).len() as int;
    assert(x.len() == li + 1 + lr + 1);
    assert forall|t: int| 0 <= t < x.len() implies s[i + t] == x[t] by {
        assert(s.subrange(i, i + x.len())[t] == x[t]);
    }
    lemma_subrange_slice(s, i, x, 0, li);
    assert(x.subrange(0, li) =~= rd_id(e.0));
    assert(x[li] == '=');
    lemma_id_round_trip(s, i, e.0);
    lemma_sp_ws_noop(s, i + li);
    assert(sp_char(s, i + li, '=') == Some(i + li + 1));
    lemma_subrange_slice(s, i, x, li + 1, li + 1 + lr);
    assert(x.subrange(li + 1, li + 1 + lr) =~= rd_record(e.1));
    lemma_record_round_trip(s, i + li + 1, e.1);
    assert(x[li + 1 + lr] == '\n');
}

/// The rendered record section, followed by a canonical footer start,
/// parses back to its records, stopping exactly where the footer
/// starts.
#[verifier::rlimit(100)]
proof fn lemma_entries_round_trip(s: Seq<char>, i: int, es: Seq<(u64, RecordV)>)
    requires
        0 <= i,
        i + rd_entries(es).len() <= s.len(),
        s.subrange(i, i + rd_entries(es).len()) == rd_entries(es),
        i + rd_entries(es).len() == s.len() || (!is_ws_char(s[i + rd_entries(es).len()]) && s[i
            + rd_entries(es).len()] != '#'),
        entries_wf(es),
        i == s.len() || !is_ws_char(s[i]),
    ensures
        sp_entries(s, i) == Some((es, i + rd_entries(es).len())),
    decreases es.len(),
{
    let x = rd_entries(es);
    if es.len() == 0 {
        lemma_sp_ws_noop(s, i);
        if i < s.len() {
            assert(s[i] != '#');
        }
    } else {
        let e0 = es[0];
        let rest = es.drop_first();
        let le = rd_entry(e0).len() as int;
        assert(x == rd_entry(e0) + rd_entries(rest));
        assert forall|t: int| 0 <= t < x.len() implies s[i + t] == x[t] by {
            assert(s.subrange(i, i + x.len())[t] == x[t]);
        }
        assert(rd_entry(e0).len() >= 2);
        assert(s[i] == x[0]);
        assert(x[0] == rd_entry(e0)[0]);
        assert(rd_entry(e0)[0] == rd_id(e0.0)[0]);
        assert(s[i] == '#');
        lemma_sp_ws_noop(s, i);
        lemma_subrange_slice(s, i, x, 0, le);
        assert(x.subrange(0, le) =~= rd_entry(e0));
        assert(1 <= e0.0 < u64::MAX && wf_record(e0.1));
        lemma_entry_round_trip(s, i, e0);
        let p = i + le - 1;
        assert(s[p] == x[le - 1]);
        assert(x[le - 1] == rd_entry(e0)[le - 1]);
        assert(rd_entry(e0)[le - 1] == '\n');
        // the tail of the section stands after the line break
        let i2 = i + le;
        assert(s.subrange(i2, i2 + rd_entries(rest).len()) =~= rd_entries(rest)) by {
            assert(forall|t: int|
                0 <= t < rd_entries(rest).len() ==> #[trigger] s.subrange(
                    i2,
                    i2 + rd_entries(rest).len(),
                )[t] == x[t + le]);
        }
        assert forall|a: int, b: int|
            0 <= a < b < rest.len() implies #[trigger] rest[a].0 < #[trigger] rest[b].0 by {
            assert(rest[a] == es[a + 1]);
            assert(rest[b] == es[b + 1]);
        }
        assert forall|k: int|
            0 <= k < rest.len() implies 1 <= (#[trigger] rest[k].0) < u64::MAX && wf_record(
            rest[k].1) by {
            assert(rest[k] == es[k + 1]);
            assert(wf_record(es[k + 1].1));
        }
        if rest.len() > 0 {
            assert(s[i2] == x[le]);
            assert(x[le] == rd_entries(rest)[0]);
            assert(rd_entries(rest)[0] == rd_entry(rest[0])[0]);
            assert(rd_entry(rest[0])[0] == rd_id(rest[0].0)[0]);
            assert(s[i2] == '#');
        }
        lemma_entries_round_trip(s, i2, rest);
        // parsing continues from just before the line break and skips it
        assert(sp_ws(s, p) == sp_ws(s, i2));
        assert(sp_entries(s, p) == sp_entries(s, i2)) by {
            let j1 = sp_ws(s, p);
            let j2 = sp_ws(s, i2);
            assert(j1 == j2);
        }
        assert(seq![e0] + rest =~= es);
        assert(sp_entries(s, i) == Some((es, i + x.len())));
    }
}

/// The document round-trip law: a canonical document parses back to
/// exactly its header, records and footer, so rendering what was
/// parsed reproduces the text.
pub proof fn lemma_document_round_trip(h: Seq<char>, es: Seq<(u64, RecordV)>, f: Seq<char>)
    requires
        doc_wf(h, es, f),
    ensures
        sp_document(rd_document_v(h, es, f)) == Some((h, es, f)),
{
    let s = rd_document_v(h, es, f);
    let hl = h.len() as int;
    let el = rd_entries(es).len() as int;
    let ml = marker().len() as int;
    assert(s.len() == hl + el + f.len());
    assert forall|t: int| 0 <= t < hl implies s[t] == h[t] by {
        assert(s[t] == (h + rd_entries(es))[t]);
    }
    assert forall|t: int| 0 <= t < el implies s[hl + t] == rd_entries(es)[t] by {
        assert(s[hl + t] == (h + rd_entries(es))[hl + t]);
    }
    assert forall|t: int| 0 <= t < f.len() implies s[hl + el + t] == f[t] by {
    }
    let m = hl - ml;
    assert(s.subrange(m, m + ml) =~= marker()) by {
        assert(forall|t: int|
            0 <= t < ml ==> #[trigger] s.subrange(m, m + ml)[t] == h[m + t]);
        assert(forall|t: int|
            0 <= t < ml ==> #[trigger] h.subrange(hl - ml, hl)[t] == h[m + t]);
    }
    assert forall|k: int|
        0 <= k < m implies #[trigger] s.subrange(k, k + ml) != marker() by {
        assert(h.subrange(k, k + ml) != marker());
        assert(s.subrange(k, k + ml) =~= h.subrange(k, k + ml)) by {
            assert(forall|t: int|
                0 <= t < ml ==> #[trigger] s.subrange(k, k + ml)[t] == h[k + t]);
            assert(forall|t: int|
                0 <= t < ml ==> #[trigger] h.subrange(k, k + ml)[t] == h[k + t]);
        }
    }
    lemma_find_marker_at(s, 0, m);
    assert(s.subrange(0, hl) =~= h);
    assert(s.subrange(hl, hl + el) =~= rd_entries(es));
    if el > 0 {
        assert(rd_entries(es)[0] == rd_entry(es[0])[0]);
        assert(rd_entry(es[0])[0] == rd_id(es[0].0)[0]);
        assert(s[hl] == '#');
    } else {
        if hl < s.len() {
            assert(s[hl] == f[0]);
        }
    }
    assert(hl + el == s.len() || (!is_ws_char(s[hl + el]) && s[hl + el] != '#')) by {
        if hl + el < s.len() {
            assert(s[hl + el] == f[0]);
            assert(footer_wf(f));
        }
    }
    assert(hl == s.len() || !is_ws_char(s[hl])) by {
        if hl < s.len() {
            if el > 0 {
            } else {
                assert(s[hl] == f[0]);
            }
        }
    }
    lemma_entries_round_trip(s, hl, es);
    assert(s.subrange(hl + el, s.len() as int) =~= f);
}

/// The view of the stored entries: identifier and record content pairs
/// in store order.
pub open spec fn entries_view(s: Seq<(u64, Record)>) -> Seq<(u64, RecordV)> {
    s.map_values(|p: (u64, Record)| (p.0, p.1@))
}

/// The record a sequence of record lines leaves under an identifier:
/// the last line with that identifier wins, as later lines overwrite
/// earlier ones in the store.
pub open spec fn entries_lookup(es: Seq<(u64, RecordV)>, q: u64) -> Option<RecordV>
    decreases es.len(),
{
    if es.len() == 0 {
        None
    } else if es.last().0 == q {
        Some(es.last().1)
    } else {
        entries_lookup(es.drop_last(), q)
    }
}

/// The record content stored under an identifier.
pub open spec fn spec_get_v(m: DataMap, q: u64) -> Option<RecordV> {
    match m.spec_get(q) {
        Some(r) => Some(r@),
        None => None,
    }
}

/// The root aggregate: header metadata, the store of all records, the
/// allocator's next-identifier counter, and the footer that closes the
/// text form.
#[derive(Debug)]
pub struct IFC {
    /// The heterogeneous store of all records, keyed by identifier.
    pub data: DataMap,
    /// The next identifier the allocator hands out; always above every
    /// identifier present in the store.
    pub next_id: u64,
    /// The header section, verbatim, through the marker that opens the
    /// record section.
    pub header: Vec<char>,
    /// The footer that closes the record section, verbatim.
    pub footer: Vec<char>,
}

impl IFC {
    /// The document invariant: the store is well formed and the
    /// allocator's next value exceeds every identifier present.
    pub open spec fn wf(self) -> bool {
        &&& self.data.wf()
        &&& self.next_id >= 1
        &&& forall|q: u64| self.data.spec_contains(q) ==> q < self.next_id
    }

    /// An empty document with a minimal canonical header and footer.
    pub fn new() -> (r: IFC)
        ensures
            r.wf(),
            r.data@ == Seq::<(u64, Record)>::empty(),
            r.next_id == 1,
            r.header@ == marker(),
            header_wf(r.header@),
            footer_wf(r.footer@),
    {
        let mut header: Vec<char> = Vec::new();
        header.push('D');
        header.push('A');
        header.push('T');
        header.push('A');
        header.push(';');
        let mut footer: Vec<char> = Vec::new();
        footer.push('E');
        footer.push('N');
        footer.push('D');
        footer.push('S');
        footer.push('E');
        footer.push('C');
        footer.push(';');
        proof {
            reveal_strlit("DATA;");
            assert(header@ =~= marker());
            assert(header@.subrange(0, 5) =~= marker());
            assert forall|k: int|
                0 <= k < header@.len() - marker().len() implies #[trigger] header@.subrange(
                k,
                k + marker().len(),
            ) != marker() by {
            }
        }
        IFC { data: DataMap::new(), next_id: 1, header, footer }
    }

    /// Returns a fresh unused identifier; the counter is monotonic and
    /// never reuses or collides with an identifier already present.
    pub fn allocate(&mut self) -> (r: Id)
        requires
            old(self).wf(),
            old(self).next_id < u64::MAX,
        ensures
            final(self).wf(),
            r@ == old(self).next_id,
            final(self).next_id == old(self).next_id + 1,
            !old(self).data.spec_contains(r@),
            final(self).data == old(self).data,
            final(self).header == old(self).header,
            final(self).footer == old(self).footer,
    {
        let id = Id(self.next_id);
        self.next_id = self.next_id + 1;
        id
    }

    /// Inserts a record under an explicit identifier, overwriting and
    /// returning any previous value there, and moves the allocator past
    /// the identifier so later allocations cannot collide with it.
    pub fn insert<T: ParsedIfcType>(&mut self, id: Id, value: T) -> (r: Option<T>)
        requires
            old(self).wf(),
            1 <= id@ < u64::MAX,
            old(self).data.spec_get(id@) matches Some(prev) ==> T::fits(prev),
        ensures
            final(self).wf(),
            final(self).data.spec_get(id@) == Some(value.wrap_spec()),
            forall|q: u64| q != id@ ==> final(self).data.spec_get(q) == old(self).data.spec_get(q),
            match r {
                Some(prev) => old(self).data.spec_get(id@) == Some(prev.wrap_spec()),
                None => old(self).data.spec_get(id@) is None,
            },
            final(self).next_id == if id@ >= old(self).next_id {
                id@ + 1
            } else {
                old(self).next_id as int
            },
            final(self).header == old(self).header,
            final(self).footer == old(self).footer,
    {
        let ghost pre = *self;
        let r = self.data.insert(id, value);
        if id.0 >= self.next_id {
            self.next_id = id.0 + 1;
        }
        proof {
            assert forall|q: u64| self.data.spec_contains(q) implies q < self.next_id by {
                assert(self.data.spec_get(q) is Some);
                if q != id@ {
                    assert(pre.data.spec_get(q) is Some);
                    assert(pre.data.spec_contains(q));
                }
            }
        }
        r
    }

    /// Inserts a record under a fresh identifier and returns the typed
    /// reference to it.
    pub fn insert_new<T: ParsedIfcType>(&mut self, value: T) -> (r: TypedId<T>)
        requires
            old(self).wf(),
            old(self).next_id < u64::MAX,
        ensures
            final(self).wf(),
            r@ == old(self).next_id,
            !old(self).data.spec_contains(r@),
            final(self).data.spec_get(r@) == Some(value.wrap_spec()),
            forall|q: u64| q != r@ ==> final(self).data.spec_get(q) == old(self).data.spec_get(q),
            final(self).next_id == old(self).next_id + 1,
            final(self).header == old(self).header,
            final(self).footer == old(self).footer,
    {
        let id = self.allocate();
        self.insert(id, value);
        TypedId::new(id)
    }

    /// Resolves a typed reference: looks the identifier up and returns
    /// the record of the statically known kind. A well-formed document
    /// always satisfies the preconditions for references built by code
    /// that inserted, or observed the insertion of, the record.
    pub fn get<T: ParsedIfcType>(&self, t: TypedId<T>) -> (v: &T)
        requires
            self.wf(),
            self.data.spec_contains(t@),
            T::fits(self.data.spec_get(t@)->Some_0),
        ensures
            v.wrap_spec() == self.data.spec_get(t@)->Some_0,
    {
        self.data.get::<T>(t.id())
    }

    /// Renders the whole document: the header, each record line in
    /// ascending identifier order, and the footer.
    pub fn render(&self) -> (out: Vec<char>)
        ensures
            out@ == rd_document_v(self.header@, entries_view(self.data@), self.footer@),
    {
        let ghost ev = entries_view(self.data@);
        let mut out: Vec<char> = Vec::new();
        out.extend_from_slice(self.header.as_slice());
        assert(out@ =~= self.header@);
        let n = self.data.len();
        let mut k: usize = 0;
        while k < n
            invariant
                0 <= k <= n,
                n == self.data@.len(),
                ev == entries_view(self.data@),
                ev.len() == n,
                out@ == self.header@ + rd_entries(ev.take(k as int)),
            decreases n - k,
        {
            let ghost pre = out@;
            let entry = self.data.entry_at(k);
            let id_val = entry.0;
            render_id(id_val, &mut out);
            out.push('=');
            entry.1.render_into(&mut out);
            out.push('\n');
            proof {
                assert(ev[k as int] == (self.data@[k as int].0, self.data@[k as int].1@));
                assert(out@ =~= pre + rd_entry(ev[k as int]));
                lemma_rd_entries_snoc(ev, k as int);
                assert(out@ =~= self.header@ + rd_entries(ev.take(k + 1)));
            }
            k = k + 1;
        }
        out.extend_from_slice(self.footer.as_slice());
        proof {
            assert(ev.take(n as int) =~= ev);
            assert(out@ =~= rd_document_v(self.header@, ev, self.footer@));
        }
        out
    }
}

/// One more rendered line extends the rendered section.
proof fn lemma_rd_entries_snoc(ev: Seq<(u64, RecordV)>, k: int)
    requires
        0 <= k < ev.len(),
    ensures
        rd_entries(ev.take(k + 1)) == rd_entries(ev.take(k)) + rd_entry(ev[k]),
    decreases k,
{
    if k == 0 {
        assert(ev.take(1) =~= seq![ev[0]]);
        assert(seq![ev[0]].drop_first() =~= Seq::<(u64, RecordV)>::empty());
        assert(rd_entries(seq![ev[0]]) == rd_entry(ev[0]) + rd_entries(
            seq![ev[0]].drop_first(),
        ));
        assert(rd_entries(ev.take(0)) + rd_entry(ev[0]) =~= rd_entry(ev[0]));
    } else {
        let a = ev.take(k + 1);
        let b = ev.take(k);
        assert(a[0] == ev[0]);
        assert(b[0] == ev[0]);
        assert(a.drop_first() =~= ev.drop_first().take(k));
        assert(b.drop_first() =~= ev.drop_first().take(k - 1));
        lemma_rd_entries_snoc(ev.drop_first(), k - 1);
        assert(ev.drop_first()[k - 1] == ev[k]);
        assert(rd_entries(a) == rd_entry(ev[0]) + rd_entries(ev.drop_first().take(k)));
        assert(rd_entries(b) == rd_entry(ev[0]) + rd_entries(ev.drop_first().take(k - 1)));
        assert(rd_entry(ev[0]) + (rd_entries(ev.drop_first().take(k - 1)) + rd_entry(ev[k])) =~= (
        rd_entry(ev[0]) + rd_entries(ev.drop_first().take(k - 1))) + rd_entry(ev[k]));
    }
}

/// Copies one span of the input verbatim.
fn copy_range(s: &Vec<char>, a: usize, b: usize) -> (r: Vec<char>)
    requires
        a <= b <= s@.len(),
    ensures
        r@ == s@.subrange(a as int, b as int),
{
    let mut r: Vec<char> = Vec::new();
    let mut k = a;
    while k < b
        invariant
            a <= k <= b <= s@.len(),
            r@ == s@.subrange(a as int, k as int),
        decreases b - k,
    {
        r.push(s[k]);
        assert(r@ =~= s@.subrange(a as int, k + 1));
        k = k + 1;
    }
    r
}

/// Scans for the first occurrence of the marker.
fn find_marker(s: &Vec<char>) -> (r: Option<usize>)
    ensures
        match r {
            Some(m) => sp_find_marker(s@, 0) == Some(m as int) && m + marker().len() <= s@.len(),
            None => sp_find_marker(s@, 0) is None,
        },
{
    proof {
        reveal_strlit("DATA;");
    }
    let n = s.len();
    let mut i: usize = 0;
    while i < n
        invariant
            0 <= i <= n,
            n == s@.len(),
            sp_find_marker(s@, 0) == sp_find_marker(s@, i as int),
            marker().len() == 5,
        decreases n - i,
    {
        if n >= 5 && i <= n - 5 {
            if lit_matches(s, i, "DATA;") {
                return Some(i);
            }
        }
        i = i + 1;
    }
    None
}

impl IFC {
    /// Parses a whole document: splits the header at the marker, reads
    /// each record line under its declared identifier (later lines for
    /// the same identifier overwrite earlier ones), keeps the footer
    /// verbatim, and moves the allocator past every identifier seen.
    /// This is the only place identifiers are accepted from untrusted
    /// input. A parse error leaves no document behind.
    #[verifier::rlimit(100)]
    pub fn parse(s: &Vec<char>) -> (r: Result<IFC, ParseError>)
        ensures
            match r {
                Ok(ifc) => {
                    &&& sp_document(s@) matches Some(d)
                    &&& ifc.header@ == d.0
                    &&& ifc.footer@ == d.2
                    &&& ifc.wf()
                    &&& forall|q: u64|
                        spec_get_v(ifc.data, q) == entries_lookup(
                            (sp_document(s@)->Some_0).1,
                            q,
                        )
                },
                Err(_) => sp_document(s@) is None,
            },
    {
        let m = match find_marker(s) {
            Some(m) => m,
            None => {
                return Err(ParseError { pos: 0, kind: ErrorKind::UnexpectedEnd });
            },
        };
        proof {
            reveal_strlit("DATA;");
        }
        let slen = s.len();
        assert(m + 5 <= slen);
        let hdr_end = m + 5;
        let header = copy_range(s, 0, hdr_end);
        let mut data = DataMap::new();
        let mut next: u64 = 1;
        let ghost mut done: Seq<(u64, RecordV)> = Seq::empty();
        let mut cur = hdr_end;
        loop
            invariant
                sp_find_marker(s@, 0) == Some(m as int),
                hdr_end == m + 5,
                marker().len() == 5,
                hdr_end <= cur <= s@.len(),
                header@ == s@.subrange(0, hdr_end as int),
                match sp_entries(s@, cur as int) {
                    Some(r) => sp_entries(s@, hdr_end as int) == Some((done + r.0, r.1)),
                    None => sp_entries(s@, hdr_end as int) is None,
                },
                data.wf(),
                next >= 1,
                forall|q: u64| data.spec_contains(q) ==> q < next,
                forall|q: u64| spec_get_v(data, q) == entries_lookup(done, q),
            decreases s@.len() - cur,
        {
            let j = skip_ws(s, cur);
            if !(j < s.len() && s[j] == '#') {
                let footer = copy_range(s, j, s.len());
                proof {
                    assert(sp_entries(s@, cur as int) == Some((Seq::<(u64, RecordV)>::empty(), j as int)));
                    assert(done + Seq::<(u64, RecordV)>::empty() =~= done);
                    assert(sp_entries(s@, hdr_end as int) == Some((done, j as int)));
                    assert(sp_document(s@) == Some(
                        (s@.subrange(0, hdr_end as int), done, s@.subrange(j as int, s@.len() as int)),
                    ));
                }
                return Ok(IFC { data, next_id: next, header, footer });
            }
            let (n, p) = match parse_id_at(s, j) {
                Ok(x) => x,
                Err(e) => {
                    proof {
                        assert(sp_entries(s@, cur as int) is None);
                    }
                    return Err(e);
                },
            };
            if n == u64::MAX {
                proof {
                    assert(sp_entry(s@, j as int) is None);
                    assert(sp_entries(s@, cur as int) is None);
                }
                return Err(ParseError { pos: j, kind: ErrorKind::NumberOverflow });
            }
            let p2 = match crate::codec::expect_char(s, p, '=') {
                Ok(x) => x,
                Err(e) => {
                    proof {
                        assert(sp_entry(s@, j as int) is None);
                        assert(sp_entries(s@, cur as int) is None);
                    }
                    return Err(e);
                },
            };
            let (rec, p3) = match Record::parse_at(s, p2) {
                Ok(x) => x,
                Err(e) => {
                    proof {
                        assert(sp_entry(s@, j as int) is None);
                        assert(sp_entries(s@, cur as int) is None);
                    }
                    return Err(e);
                },
            };
            let ghost pre_data = data;
            let ghost pre_done = done;
            data.insert_untyped(Id(n), rec);
            if n >= next {
                next = n + 1;
            }
            proof {
                done = done.push((n, rec@));
                assert(sp_entry(s@, j as int) == Some(((n, rec@), p3 as int)));
                if let Some(r) = sp_entries(s@, p3 as int) {
                    assert(sp_entries(s@, cur as int) == Some((seq![(n, rec@)] + r.0, r.1)));
                    assert(pre_done + (seq![(n, rec@)] + r.0) =~= done + r.0);
                } else {
                    assert(sp_entries(s@, cur as int) is None);
                }
                assert forall|q: u64| spec_get_v(data, q) == entries_lookup(done, q) by {
                    assert(done.drop_last() =~= pre_done);
                    assert(done.last() == (n, rec@));
                    assert(spec_get_v(pre_data, q) == entries_lookup(pre_done, q));
                    if q == n {
                        assert(data.spec_get(q) == Some(rec));
                        assert(spec_get_v(data, q) == Some(rec@));
                        assert(entries_lookup(done, q) == Some(rec@));
                    } else {
                        assert(data.spec_get(q) == pre_data.spec_get(q));
                        assert(spec_get_v(data, q) == spec_get_v(pre_data, q));
                        assert(entries_lookup(done, q) == entries_lookup(pre_done, q));
                    }
                }
                assert forall|q: u64| data.spec_contains(q) implies q < next by {
                    assert(data.spec_get(q) is Some);
                    if q != n {
                        assert(pre_data.spec_get(q) is Some);
                        assert(pre_data.spec_contains(q));
                    }
                }
            }
            cur = p3;
        }
    }
}

impl<T: ParsedIfcType> IdOr<T> {
    /// The sole materialization path into the store: an existing
    /// reference is returned as it is and the document is untouched; an
    /// owned value is inserted under a fresh identifier exactly once.
    /// The returned reference wraps the value's identifier, so
    /// converting it again is a no-op.
    pub fn into_id(self, ifc: &mut IFC) -> (r: TypedId<T>)
        requires
            old(ifc).wf(),
            old(ifc).next_id < u64::MAX,
        ensures
            final(ifc).wf(),
            final(ifc).header == old(ifc).header,
            final(ifc).footer == old(ifc).footer,
            match self {
                IdOr::Id(t) => r == t && *final(ifc) == *old(ifc),
                IdOr::Custom(v) => {
                    &&& r@ == old(ifc).next_id
                    &&& !old(ifc).data.spec_contains(r@)
                    &&& final(ifc).data.spec_get(r@) == Some(v.wrap_spec())
                    &&& forall|q: u64|
                        q != r@ ==> final(ifc).data.spec_get(q) == old(ifc).data.spec_get(q)
                    &&& final(ifc).next_id == old(ifc).next_id + 1
                },
            },
    {
        match self {
            IdOr::Id(t) => t,
            IdOr::Custom(v) => ifc.insert_new(v),
        }
    }

    /// Materializes the value if it is not yet stored; see
    /// [`IdOr::into_id`].
    pub fn or_insert(self, ifc: &mut IFC) -> (r: TypedId<T>)
        requires
            old(ifc).wf(),
            old(ifc).next_id < u64::MAX,
        ensures
            final(ifc).wf(),
            final(ifc).header == old(ifc).header,
            final(ifc).footer == old(ifc).footer,
            match self {
                IdOr::Id(t) => r == t && *final(ifc) == *old(ifc),
                IdOr::Custom(v) => {
                    &&& r@ == old(ifc).next_id
                    &&& !old(ifc).data.spec_contains(r@)
                    &&& final(ifc).data.spec_get(r@) == Some(v.wrap_spec())
                    &&& forall|q: u64|
                        q != r@ ==> final(ifc).data.spec_get(q) == old(ifc).data.spec_get(q)
                    &&& final(ifc).next_id == old(ifc).next_id + 1
                },
            },
    {
        self.into_id(ifc)
    }
}

/// Identifier uniqueness: in a well-formed store no two entries share
/// an identifier, and the allocator's next value exceeds every
/// identifier present, so an allocated identifier never collides.
pub proof fn lemma_identifier_uniqueness(ifc: IFC, a: int, b: int)
    requires
        ifc.wf(),
        0 <= a < ifc.data@.len(),
        0 <= b < ifc.data@.len(),
        a != b,
    ensures
        ifc.data@[a].0 != ifc.data@[b].0,
        ifc.data@[a].0 < ifc.next_id,
{
    if a < b {
        assert(ifc.data@[a].0 < ifc.data@[b].0);
    } else {
        assert(ifc.data@[b].0 < ifc.data@[a].0);
    }
    ifc.data.lemma_get_at(a);
}

/// Reference resolution determinism: any two values resolved from the
/// same store under the same identifier and kind are equal, by value.
pub proof fn lemma_resolution_deterministic<T: ParsedIfcType>(ifc: IFC, t: TypedId<T>, v1: T, v2: T)
    requires
        v1.wrap_spec() == ifc.data.spec_get(t@)->Some_0,
        v2.wrap_spec() == ifc.data.spec_get(t@)->Some_0,
    ensures
        v1 == v2,
{
    T::lemma_wrap_injective(v1, v2);
}

/// A record line's identifier is found by the last-wins lookup over
/// the lines.
proof fn lemma_entries_lookup_present(es: Seq<(u64, RecordV)>, k: int)
    requires
        0 <= k < es.len(),
    ensures
        entries_lookup(es, es[k].0) is Some,
    decreases es.len(),
{
    if k < es.len() - 1 {
        if es.last().0 != es[k].0 {
            assert(es.drop_last()[k] == es[k]);
            lemma_entries_lookup_present(es.drop_last(), k);
        }
    }
}

/// Referential closure after a whole-document parse: every identifier
/// declared on some record line of the text is present in the store,
/// whatever kind its record has, so a reference to a record declared
/// later in the text resolves once the whole record section has been
/// consumed.
pub proof fn lemma_referential_closure(m: DataMap, es: Seq<(u64, RecordV)>, k: int)
    requires
        forall|q: u64| spec_get_v(m, q) == entries_lookup(es, q),
        0 <= k < es.len(),
    ensures
        m.spec_contains(es[k].0),
        spec_get_v(m, es[k].0) == entries_lookup(es, es[k].0),
{
    lemma_entries_lookup_present(es, k);
    assert(spec_get_v(m, es[k].0) is Some);
    assert(m.spec_get(es[k].0) is Some);
}

} // verus!
