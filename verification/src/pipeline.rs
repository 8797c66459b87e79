//! The transform stage: one entry's document text in, one output out — a
//! compact JSON line or a tabular row — with per-entry failures reported,
//! never fatal. Batches only group entries; the batch size never changes
//! what is produced, which is stated and proved here. The `Batcher`
//! accumulates entries into fixed-size batches for the bounded hand-off
//! between the producer and the transform stage.

use vstd::prelude::*;

use crate::decode::{decode_record, decode_spec};
use crate::filter::{passes_filter, NameFilter};
use crate::json::{lemma_name_json_text_agrees, name_json_compact, name_json_text_v};
use crate::normalize::{lemma_normalize_agrees, normalize_of, normalize_spec, record_to_json, NameView};
use crate::orgmap::OrgMap;
use crate::row::{record_to_row, Row, RowError};

verus! {

/// The output encodings of the conversion mode.
#[derive(Debug, Copy, Clone, PartialEq, Eq, PartialOrd, Ord)]
pub enum ConvertFormat {
    InvenioRDMNames,
    JSON,
}

/// The output encodings of the extraction mode.
#[derive(Debug, Copy, Clone, PartialEq, Eq, PartialOrd, Ord)]
pub enum ExtractFormat {
    OrgIDs,
}

/// Why one entry produced no output.
#[derive(Debug, Clone, PartialEq)]
pub enum EntryError {
    /// The document could not be decoded; carries the structural path.
    Decode { path: String },
    /// No usable person name; carries the record's canonical identifier.
    NoName { pid: String },
    /// The display name failed the name filter.
    Filtered { name: String, pid: String },
}

/// The normalized identity an entry yields, if any: decoding, normalization
/// and the optional name filter, in that order.
pub open spec fn entry_view(
    s: Seq<char>,
    m: Map<(Seq<char>, Seq<char>), Seq<char>>,
    f: Option<NameFilter>,
) -> Option<NameView> {
    match decode_spec(s) {
        Err(_) => None,
        Ok(v) => match normalize_of(v, m) {
            None => None,
            Some(nv) => if passes_filter(f, nv.display) {
                Some(nv)
            } else {
                None
            },
        },
    }
}

/// The compact JSON text an entry yields, if any.
pub open spec fn entry_json(
    s: Seq<char>,
    m: Map<(Seq<char>, Seq<char>), Seq<char>>,
    f: Option<NameFilter>,
) -> Option<Seq<char>> {
    match entry_view(s, m, f) {
        None => None,
        Some(nv) => Some(name_json_text_v(nv)),
    }
}

/// The mathematical form of one diagnostic.
pub ghost enum EntryErrV {
    Decode { path: Seq<char> },
    NoName { pid: Seq<char> },
    Filtered { name: Seq<char>, pid: Seq<char> },
}

/// Whether an in-memory diagnostic denotes `v`: same kind, same text.
pub open spec fn entry_err_matches(e: EntryError, v: EntryErrV) -> bool {
    match (e, v) {
        (EntryError::Decode { path }, EntryErrV::Decode { path: p }) => path@ == p,
        (EntryError::NoName { pid }, EntryErrV::NoName { pid: p }) => pid@ == p,
        (EntryError::Filtered { name, pid }, EntryErrV::Filtered { name: n, pid: p }) => name@
            == n && pid@ == p,
        _ => false,
    }
}

/// The diagnostic an entry yields when it produces no output: exactly one of
/// the two is present.
pub open spec fn entry_diag(
    s: Seq<char>,
    m: Map<(Seq<char>, Seq<char>), Seq<char>>,
    f: Option<NameFilter>,
) -> Option<EntryErrV> {
    match decode_spec(s) {
        Err(p) => Some(EntryErrV::Decode { path: p }),
        Ok(v) => match normalize_of(v, m) {
            None => Some(EntryErrV::NoName { pid: v.path }),
            Some(nv) => if passes_filter(f, nv.display) {
                None
            } else {
                Some(EntryErrV::Filtered { name: nv.display, pid: v.path })
            },
        },
    }
}

/// The diagnostics of a batch, in entry order.
pub open spec fn batch_diags(
    items: Seq<String>,
    m: Map<(Seq<char>, Seq<char>), Seq<char>>,
    f: Option<NameFilter>,
) -> Seq<EntryErrV>
    decreases items.len(),
{
    if items.len() == 0 {
        Seq::empty()
    } else {
        let p = batch_diags(items.drop_last(), m, f);
        match entry_diag(items.last()@, m, f) {
            Some(d) => p.push(d),
            None => p,
        }
    }
}

/// Transforms one entry to its compact JSON line. Succeeds exactly when the
/// document decodes, a usable name exists, and the display name passes the
/// filter; each failure is reported with its diagnostic.
pub fn convert_entry_json(
    xml: &str,
    org_map: &OrgMap,
    name_filter: &Option<NameFilter>,
) -> (r: Result<String, EntryError>)
    ensures
        r is Ok <==> entry_json(xml@, org_map@, *name_filter) is Some,
        r is Ok ==> r->Ok_0@ == entry_json(xml@, org_map@, *name_filter)->Some_0,
        r is Err ==> match r->Err_0 {
            EntryError::Decode { path } => decode_spec(xml@) is Err && path@ == decode_spec(
                xml@,
            )->Err_0,
            EntryError::NoName { pid } => decode_spec(xml@) is Ok && normalize_of(
                decode_spec(xml@)->Ok_0,
                org_map@,
            ) is None && pid@ == decode_spec(xml@)->Ok_0.path,
            EntryError::Filtered { name, pid } => decode_spec(xml@) is Ok && {
                let nv = normalize_of(decode_spec(xml@)->Ok_0, org_map@);
                nv is Some && !passes_filter(*name_filter, nv->Some_0.display) && name@
                    == nv->Some_0.display && pid@ == decode_spec(xml@)->Ok_0.path
            },
        },
{
    let record = match decode_record(xml) {
        Err(e) => {
            return Err(EntryError::Decode { path: e.path });
        },
        Ok(rec) => rec,
    };
    proof {
        lemma_normalize_agrees(record, decode_spec(xml@)->Ok_0, org_map@);
    }
    let name_json = match record_to_json(&record, org_map) {
        Err(e) => {
            return Err(EntryError::NoName { pid: e.pid });
        },
        Ok(nj) => nj,
    };
    let keep = match name_filter {
        None => true,
        Some(nf) => nf.is_match(name_json.name.as_str()),
    };
    if !keep {
        return Err(
            EntryError::Filtered { name: name_json.name, pid: record.identifier.path },
        );
    }
    proof {
        lemma_name_json_text_agrees(name_json, normalize_spec(record, org_map@)->Some_0);
    }
    Ok(name_json_compact(&name_json))
}

/// Transforms one entry to an output row.
pub fn convert_entry_row(
    xml: &str,
    org_map: &OrgMap,
    created_dt: &str,
    name_filter: &Option<NameFilter>,
) -> (r: Result<Row, EntryError>)
    ensures
        r is Ok <==> entry_view(xml@, org_map@, *name_filter) is Some,
        r is Ok ==> {
            let row = r->Ok_0;
            let nv = entry_view(xml@, org_map@, *name_filter)->Some_0;
            &&& row.created@ == created_dt@
            &&& row.updated@ == created_dt@
            &&& row.id@.len() == 36
            &&& row.json@ == name_json_text_v(nv)
            &&& row.version_id == 1
            &&& row.pid@ == nv.orcid
        },
        r is Err ==> match r->Err_0 {
            EntryError::Decode { path } => decode_spec(xml@) is Err && path@ == decode_spec(
                xml@,
            )->Err_0,
            EntryError::NoName { pid } => decode_spec(xml@) is Ok && normalize_of(
                decode_spec(xml@)->Ok_0,
                org_map@,
            ) is None && pid@ == decode_spec(xml@)->Ok_0.path,
            EntryError::Filtered { name, pid } => decode_spec(xml@) is Ok && {
                let nv = normalize_of(decode_spec(xml@)->Ok_0, org_map@);
                nv is Some && !passes_filter(*name_filter, nv->Some_0.display) && name@
                    == nv->Some_0.display && pid@ == decode_spec(xml@)->Ok_0.path
            },
        },
{
    let record = match decode_record(xml) {
        Err(e) => {
            return Err(EntryError::Decode { path: e.path });
        },
        Ok(rec) => rec,
    };
    proof {
        lemma_normalize_agrees(record, decode_spec(xml@)->Ok_0, org_map@);
    }
    match record_to_row(&record, org_map, created_dt, name_filter) {
        Ok(row) => Ok(row),
        Err(RowError::NoName { pid }) => Err(EntryError::NoName { pid }),
        Err(RowError::Filtered { name, pid }) => Err(EntryError::Filtered { name, pid }),
    }
}

/// The JSON lines a batch of entries yields, in order.
pub open spec fn batch_json(
    items: Seq<String>,
    m: Map<(Seq<char>, Seq<char>), Seq<char>>,
    f: Option<NameFilter>,
) -> Seq<Seq<char>>
    decreases items.len(),
{
    if items.len() == 0 {
        Seq::empty()
    } else {
        let p = batch_json(items.drop_last(), m, f);
        match entry_json(items.last()@, m, f) {
            Some(t) => p.push(t),
            None => p,
        }
    }
}

/// The views of a list of strings.
pub open spec fn strs_views(s: Seq<String>) -> Seq<Seq<char>> {
    Seq::new(s.len(), |i: int| s[i]@)
}

/// Transforms one batch to its JSON lines, in entry order, together with the
/// diagnostics of the entries that produced none.
pub fn process_batch_json(
    batch: &Vec<String>,
    org_map: &OrgMap,
    name_filter: &Option<NameFilter>,
) -> (r: (Vec<String>, Vec<EntryError>))
    ensures
        strs_views(r.0@) == batch_json(batch@, org_map@, *name_filter),
        r.0@.len() + r.1@.len() == batch@.len(),
        r.1@.len() == batch_diags(batch@, org_map@, *name_filter).len(),
        forall|k: int|
            0 <= k < r.1@.len() ==> entry_err_matches(
                #[trigger] r.1@[k],
                batch_diags(batch@, org_map@, *name_filter)[k],
            ),
{
    let mut outs: Vec<String> = Vec::new();
    let mut errs: Vec<EntryError> = Vec::new();
    let mut i: usize = 0;
    while i < batch.len()
        invariant
            0 <= i <= batch@.len(),
            strs_views(outs@) == batch_json(batch@.subrange(0, i as int), org_map@, *name_filter),
            outs@.len() + errs@.len() == i,
            errs@.len() == batch_diags(batch@.subrange(0, i as int), org_map@, *name_filter).len(),
            forall|k: int|
                0 <= k < errs@.len() ==> entry_err_matches(
                    #[trigger] errs@[k],
                    batch_diags(batch@.subrange(0, i as int), org_map@, *name_filter)[k],
                ),
        decreases batch@.len() - i,
    {
        match convert_entry_json(batch[i].as_str(), org_map, name_filter) {
            Ok(line) => outs.push(line),
            Err(e) => errs.push(e),
        }
        i += 1;
        proof {
            let pre = batch@.subrange(0, i as int);
            assert(pre.drop_last() =~= batch@.subrange(0, i - 1));
            assert(pre.last() == batch@[i - 1]);
            assert(strs_views(outs@) =~= batch_json(pre, org_map@, *name_filter));
        }
    }
    proof {
        assert(batch@.subrange(0, batch@.len() as int) =~= batch@);
    }
    (outs, errs)
}

/// The identities a batch of entries yields, in order.
pub open spec fn batch_views(
    items: Seq<String>,
    m: Map<(Seq<char>, Seq<char>), Seq<char>>,
    f: Option<NameFilter>,
) -> Seq<NameView>
    decreases items.len(),
{
    if items.len() == 0 {
        Seq::empty()
    } else {
        let p = batch_views(items.drop_last(), m, f);
        match entry_view(items.last()@, m, f) {
            Some(nv) => p.push(nv),
            None => p,
        }
    }
}

/// Transforms one batch to its output rows, in entry order, together with
/// the diagnostics of the entries that produced none.
pub fn process_batch_rows(
    batch: &Vec<String>,
    org_map: &OrgMap,
    created_dt: &str,
    name_filter: &Option<NameFilter>,
) -> (r: (Vec<Row>, Vec<EntryError>))
    ensures
        r.0@.len() == batch_views(batch@, org_map@, *name_filter).len(),
        forall|k: int|
            0 <= k < r.0@.len() ==> {
                let row = #[trigger] r.0@[k];
                let nv = batch_views(batch@, org_map@, *name_filter)[k];
                &&& row.created@ == created_dt@
                &&& row.updated@ == created_dt@
                &&& row.id@.len() == 36
                &&& row.json@ == name_json_text_v(nv)
                &&& row.version_id == 1
                &&& row.pid@ == nv.orcid
            },
        r.0@.len() + r.1@.len() == batch@.len(),
        r.1@.len() == batch_diags(batch@, org_map@, *name_filter).len(),
        forall|k: int|
            0 <= k < r.1@.len() ==> entry_err_matches(
                #[trigger] r.1@[k],
                batch_diags(batch@, org_map@, *name_filter)[k],
            ),
{
    let mut outs: Vec<Row> = Vec::new();
    let mut errs: Vec<EntryError> = Vec::new();
    let mut i: usize = 0;
    while i < batch.len()
        invariant
            0 <= i <= batch@.len(),
            outs@.len() == batch_views(batch@.subrange(0, i as int), org_map@, *name_filter).len(),
            forall|k: int|
                0 <= k < outs@.len() ==> {
                    let row = #[trigger] outs@[k];
                    let nv = batch_views(batch@.subrange(0, i as int), org_map@, *name_filter)[k];
                    &&& row.created@ == created_dt@
                    &&& row.updated@ == created_dt@
                    &&& row.id@.len() == 36
                    &&& row.json@ == name_json_text_v(nv)
                    &&& row.version_id == 1
                    &&& row.pid@ == nv.orcid
                },
            outs@.len() + errs@.len() == i,
            errs@.len() == batch_diags(batch@.subrange(0, i as int), org_map@, *name_filter).len(),
            forall|k: int|
                0 <= k < errs@.len() ==> entry_err_matches(
                    #[trigger] errs@[k],
                    batch_diags(batch@.subrange(0, i as int), org_map@, *name_filter)[k],
                ),
        decreases batch@.len() - i,
    {
        match convert_entry_row(batch[i].as_str(), org_map, created_dt, name_filter) {
            Ok(row) => outs.push(row),
            Err(e) => errs.push(e),
        }
        i += 1;
        proof {
            let pre = batch@.subrange(0, i as int);
            assert(pre.drop_last() =~= batch@.subrange(0, i - 1));
            assert(pre.last() == batch@[i - 1]);
        }
    }
    proof {
        assert(batch@.subrange(0, batch@.len() as int) =~= batch@);
    }
    (outs, errs)
}

/// Accumulates entries into fixed-size batches. A full batch is handed out
/// as soon as the target size is reached; a trailing partial batch comes out
/// once at the end. Everything pushed comes out again, in order.
pub struct Batcher {
    buf: Vec<String>,
    cap: usize,
    emitted: Ghost<Seq<Seq<String>>>,
}

/// The concatenation of a list of batches.
pub open spec fn concat_all(bs: Seq<Seq<String>>) -> Seq<String>
    decreases bs.len(),
{
    if bs.len() == 0 {
        Seq::empty()
    } else {
        concat_all(bs.drop_last()) + bs.last()
    }
}

impl Batcher {
    /// The batches handed out so far.
    pub closed spec fn emitted(&self) -> Seq<Seq<String>> {
        self.emitted@
    }

    /// The entries accumulated but not yet handed out.
    pub closed spec fn pending(&self) -> Seq<String> {
        self.buf@
    }

    /// The target batch size.
    pub closed spec fn capacity(&self) -> int {
        self.cap as int
    }

    /// The batcher's invariant: a partial batch is pending, and every batch
    /// handed out was full.
    pub open spec fn wf(&self) -> bool {
        &&& self.capacity() >= 1
        &&& self.pending().len() < self.capacity()
        &&& forall|k: int|
            0 <= k < self.emitted().len() ==> (#[trigger] self.emitted()[k]).len()
                == self.capacity()
    }

    /// Everything pushed so far: the batches handed out, then the pending
    /// entries.
    pub open spec fn pushed(&self) -> Seq<String> {
        concat_all(self.emitted()) + self.pending()
    }

    pub fn new(batch_size: usize) -> (r: Batcher)
        requires
            batch_size >= 1,
        ensures
            r.wf(),
            r.capacity() == batch_size,
            r.pushed() == Seq::<String>::empty(),
            r.emitted() == Seq::<Seq<String>>::empty(),
    {
        let r = Batcher { buf: Vec::new(), cap: batch_size, emitted: Ghost(Seq::empty()) };
        proof {
            assert(r.pushed() =~= Seq::<String>::empty());
        }
        r
    }

    /// Takes one entry in; hands a batch out exactly when it reaches the
    /// target size.
    pub fn push(&mut self, item: String) -> (r: Option<Vec<String>>)
        requires
            old(self).wf(),
        ensures
            final(self).wf(),
            final(self).capacity() == old(self).capacity(),
            final(self).pushed() == old(self).pushed().push(item),
            match r {
                Some(batch) => {
                    &&& batch@ == old(self).pending().push(item)
                    &&& batch@.len() == old(self).capacity()
                    &&& final(self).pending() == Seq::<String>::empty()
                    &&& final(self).emitted() == old(self).emitted().push(batch@)
                },
                None => {
                    &&& final(self).pending() == old(self).pending().push(item)
                    &&& final(self).emitted() == old(self).emitted()
                },
            },
    {
        self.buf.push(item);
        if self.buf.len() >= self.cap {
            let batch = self.buf.split_off(0);
            proof {
                self.emitted@ = self.emitted@.push(batch@);
                assert(self.emitted@.drop_last() =~= old(self).emitted@);
                assert(final(self).pushed() =~= old(self).pushed().push(item));
            }
            Some(batch)
        } else {
            proof {
                assert(final(self).pushed() =~= old(self).pushed().push(item));
            }
            None
        }
    }

    /// Hands out the trailing partial batch, if any.
    pub fn finish(self) -> (r: Option<Vec<String>>)
        requires
            self.wf(),
        ensures
            match r {
                Some(batch) => batch@ == self.pending() && batch@.len() > 0,
                None => self.pending().len() == 0,
            },
    {
        if self.buf.len() == 0 {
            None
        } else {
            Some(self.buf)
        }
    }
}

proof fn lemma_batch_json_append(
    a: Seq<String>,
    b: Seq<String>,
    m: Map<(Seq<char>, Seq<char>), Seq<char>>,
    f: Option<NameFilter>,
)
    ensures
        batch_json(a + b, m, f) == batch_json(a, m, f) + batch_json(b, m, f),
    decreases b.len(),
{
    if b.len() == 0 {
        assert(a + b =~= a);
        assert(batch_json(a, m, f) + batch_json(b, m, f) =~= batch_json(a, m, f));
    } else {
        lemma_batch_json_append(a, b.drop_last(), m, f);
        assert((a + b).drop_last() =~= a + b.drop_last());
        assert((a + b).last() == b.last());
        match entry_json(b.last()@, m, f) {
            Some(t) => {
                assert(batch_json(a + b, m, f) =~= batch_json(a, m, f) + batch_json(b, m, f));
            },
            None => {
                assert(batch_json(a + b, m, f) =~= batch_json(a, m, f) + batch_json(b, m, f));
            },
        }
    }
}

/// The JSON lines of a list of batches, batch by batch.
pub open spec fn batches_json(
    bs: Seq<Seq<String>>,
    m: Map<(Seq<char>, Seq<char>), Seq<char>>,
    f: Option<NameFilter>,
) -> Seq<Seq<char>>
    decreases bs.len(),
{
    if bs.len() == 0 {
        Seq::empty()
    } else {
        batches_json(bs.drop_last(), m, f) + batch_json(bs.last(), m, f)
    }
}

proof fn lemma_batches_json_concat(
    bs: Seq<Seq<String>>,
    m: Map<(Seq<char>, Seq<char>), Seq<char>>,
    f: Option<NameFilter>,
)
    ensures
        batches_json(bs, m, f) == batch_json(concat_all(bs), m, f),
    decreases bs.len(),
{
    if bs.len() == 0 {
        assert(batches_json(bs, m, f) =~= batch_json(concat_all(bs), m, f));
    } else {
        lemma_batches_json_concat(bs.drop_last(), m, f);
        lemma_batch_json_append(concat_all(bs.drop_last()), bs.last(), m, f);
    }
}

/// How the entries are grouped into batches does not change what is
/// produced: two batchings of the same entries yield the same outputs — the
/// same lines, so in particular the same set of normalized records.
pub proof fn lemma_batching_irrelevant(
    bs1: Seq<Seq<String>>,
    bs2: Seq<Seq<String>>,
    m: Map<(Seq<char>, Seq<char>), Seq<char>>,
    f: Option<NameFilter>,
)
    requires
        concat_all(bs1) == concat_all(bs2),
    ensures
        batches_json(bs1, m, f) == batches_json(bs2, m, f),
        batches_json(bs1, m, f).to_set() == batches_json(bs2, m, f).to_set(),
{
    lemma_batches_json_concat(bs1, m, f);
    lemma_batches_json_concat(bs2, m, f);
}

/// The number of entries of a batch that produce an output.
pub open spec fn valid_count(
    items: Seq<String>,
    m: Map<(Seq<char>, Seq<char>), Seq<char>>,
    f: Option<NameFilter>,
) -> int
    decreases items.len(),
{
    if items.len() == 0 {
        0int
    } else {
        valid_count(items.drop_last(), m, f) + (if entry_json(items.last()@, m, f) is Some {
            1int
        } else {
            0int
        })
    }
}

/// Exactly the valid entries produce output: the output count equals the
/// count of entries that decode, have a usable name, and pass the filter.
pub proof fn lemma_output_count(
    items: Seq<String>,
    m: Map<(Seq<char>, Seq<char>), Seq<char>>,
    f: Option<NameFilter>,
)
    ensures
        batch_json(items, m, f).len() == valid_count(items, m, f),
    decreases items.len(),
{
    if items.len() > 0 {
        lemma_output_count(items.drop_last(), m, f);
    }
}

} // verus!
