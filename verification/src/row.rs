//! Tabular output rows: one normalized identity wrapped with the run
//! timestamp, a fresh unique id, and the record's canonical path, rendered
//! as one comma-separated line with the library's quoting rules.

use vstd::prelude::*;

use crate::filter::{passes_filter, NameFilter};
use crate::json::{hex_digit, hex_digit_ch, lemma_name_json_text_agrees, name_json_compact, name_json_text_v};
use crate::text::push_char;
use crate::normalize::{normalize_spec, record_to_json};
use crate::orgmap::OrgMap;
use crate::record::Record;

verus! {

/// One output row. Both timestamps carry the run-start instant, so
/// `created == updated` for every row of one run.
#[derive(Debug, Clone, PartialEq)]
pub struct Row {
    pub created: String,
    pub updated: String,
    pub id: String,
    pub json: String,
    pub version_id: u8,
    pub pid: String,
}

/// Why a record produced no row.
#[derive(Debug, Clone, PartialEq)]
pub enum RowError {
    /// No usable person name; carries the record's canonical identifier.
    NoName { pid: String },
    /// The display name failed the name filter; carries the name and the
    /// record's canonical identifier.
    Filtered { name: String, pid: String },
}

/// A character that forces a field into quotes: the quote itself, the
/// delimiter, or a line break.
pub open spec fn csv_special(c: char) -> bool {
    c == '"' || c == ',' || c == '\n' || c == '\r'
}

/// Whether a field must be quoted.
pub open spec fn needs_quotes(s: Seq<char>) -> bool {
    exists|i: int| 0 <= i < s.len() && csv_special(#[trigger] s[i])
}

/// The field's characters with every quote doubled.
pub open spec fn double_quotes(s: Seq<char>) -> Seq<char>
    decreases s.len(),
{
    if s.len() == 0 {
        Seq::empty()
    } else {
        double_quotes(s.drop_last()) + (if s.last() == '"' {
            seq!['"', '"']
        } else {
            seq![s.last()]
        })
    }
}

/// One encoded field: quoted with doubled quotes when it holds a special
/// character, verbatim otherwise.
pub open spec fn csv_field(s: Seq<char>) -> Seq<char> {
    if needs_quotes(s) {
        seq!['"'] + double_quotes(s) + seq!['"']
    } else {
        s
    }
}

/// The decimal form of a byte value, without leading zeros.
pub open spec fn u8_dec(n: u8) -> Seq<char> {
    if n >= 100 {
        seq![hex_digit(n as int / 100), hex_digit((n as int / 10) % 10), hex_digit(n as int % 10)]
    } else if n >= 10 {
        seq![hex_digit(n as int / 10), hex_digit(n as int % 10)]
    } else {
        seq![hex_digit(n as int)]
    }
}

/// One row as a line: the six fields in order, comma-separated, newline
/// terminated.
pub open spec fn row_line(r: Row) -> Seq<char> {
    csv_field(r.created@) + seq![','] + csv_field(r.updated@) + seq![','] + csv_field(r.id@)
        + seq![','] + csv_field(r.json@) + seq![','] + u8_dec(r.version_id) + seq![','] + csv_field(
        r.pid@,
    ) + seq!['\n']
}

/// Relies on `uuid::Uuid::new_v4` and its display form: a fresh random
/// identifier rendered as 36 hyphenated lowercase hexadecimal characters.
#[verifier::external_body]
fn fresh_uuid() -> (r: String)
    ensures
        r@.len() == 36,
{
    uuid::Uuid::new_v4().to_string()
}

/// Whether the field needs quoting.
fn needs_quotes_x(s: &str) -> (r: bool)
    ensures
        r == needs_quotes(s@),
{
    let n = s.unicode_len();
    let mut i: usize = 0;
    while i < n
        invariant
            0 <= i <= n,
            n == s@.len(),
            forall|k: int| 0 <= k < i ==> !csv_special(#[trigger] s@[k]),
        decreases n - i,
    {
        let c = s.get_char(i);
        if c == '"' || c == ',' || c == '\n' || c == '\r' {
            return true;
        }
        i += 1;
    }
    false
}

/// Appends one encoded field.
fn push_csv_field(out: &mut String, s: &str)
    ensures
        final(out)@ == old(out)@ + csv_field(s@),
{
    if !needs_quotes_x(s) {
        out.append(s);
        return ;
    }
    push_char(out, '"');
    let ghost base = out@;
    let n = s.unicode_len();
    let mut i: usize = 0;
    while i < n
        invariant
            0 <= i <= n,
            n == s@.len(),
            out@ == base + double_quotes(s@.subrange(0, i as int)),
        decreases n - i,
    {
        let c = s.get_char(i);
        if c == '"' {
            push_char(out, '"');
            push_char(out, '"');
        } else {
            push_char(out, c);
        }
        i += 1;
        proof {
            let pre = s@.subrange(0, i as int);
            assert(pre.drop_last() =~= s@.subrange(0, i - 1));
            assert(out@ =~= base + double_quotes(pre));
        }
    }
    push_char(out, '"');
    proof {
        assert(s@.subrange(0, n as int) =~= s@);
        assert(out@ =~= old(out)@ + csv_field(s@));
    }
}

/// Appends the decimal form of a byte value.
fn push_u8_dec(out: &mut String, n: u8)
    ensures
        final(out)@ == old(out)@ + u8_dec(n),
{
    if n >= 100 {
        push_char(out, hex_digit_ch((n / 100) as u32));
        push_char(out, hex_digit_ch(((n / 10) % 10) as u32));
        push_char(out, hex_digit_ch((n % 10) as u32));
        proof {
            assert(out@ =~= old(out)@ + u8_dec(n));
        }
    } else if n >= 10 {
        push_char(out, hex_digit_ch((n / 10) as u32));
        push_char(out, hex_digit_ch((n % 10) as u32));
        proof {
            assert(out@ =~= old(out)@ + u8_dec(n));
        }
    } else {
        push_char(out, hex_digit_ch(n as u32));
        proof {
            assert(out@ =~= old(out)@ + u8_dec(n));
        }
    }
}

/// One row as a comma-separated, newline-terminated line.
pub fn row_to_csv(r: &Row) -> (out: String)
    ensures
        out@ == row_line(*r),
{
    let mut out = String::new();
    push_csv_field(&mut out, r.created.as_str());
    push_char(&mut out, ',');
    push_csv_field(&mut out, r.updated.as_str());
    push_char(&mut out, ',');
    push_csv_field(&mut out, r.id.as_str());
    push_char(&mut out, ',');
    push_csv_field(&mut out, r.json.as_str());
    push_char(&mut out, ',');
    push_u8_dec(&mut out, r.version_id);
    push_char(&mut out, ',');
    push_csv_field(&mut out, r.pid.as_str());
    push_char(&mut out, '\n');
    proof {
        assert(out@ =~= row_line(*r));
    }
    out
}

/// Wraps one record into an output row: normalization, the optional name
/// filter, the run timestamp in both timestamp columns, a fresh unique id,
/// and the serialized identity. Fails exactly when the record has no usable
/// name or its display name fails the filter.
pub fn record_to_row(
    record: &Record,
    org_map: &OrgMap,
    created_dt: &str,
    name_filter: &Option<NameFilter>,
) -> (r: Result<Row, RowError>)
    ensures
        r is Ok <==> (normalize_spec(*record, org_map@) is Some && passes_filter(
            *name_filter,
            normalize_spec(*record, org_map@)->Some_0.display,
        )),
        r is Ok ==> {
            let row = r->Ok_0;
            let v = normalize_spec(*record, org_map@)->Some_0;
            &&& row.created@ == created_dt@
            &&& row.updated@ == created_dt@
            &&& row.id@.len() == 36
            &&& row.json@ == name_json_text_v(v)
            &&& row.version_id == 1
            &&& row.pid@ == record.identifier.path@
        },
        r is Err ==> match r->Err_0 {
            RowError::NoName { pid } => normalize_spec(*record, org_map@) is None && pid@
                == record.identifier.path@,
            RowError::Filtered { name, pid } => normalize_spec(*record, org_map@) is Some
                && !passes_filter(*name_filter, normalize_spec(*record, org_map@)->Some_0.display)
                && name@ == normalize_spec(*record, org_map@)->Some_0.display && pid@
                == record.identifier.path@,
        },
{
    let name_json = match record_to_json(record, org_map) {
        Err(e) => {
            return Err(RowError::NoName { pid: e.pid });
        },
        Ok(nj) => nj,
    };
    let keep = match name_filter {
        None => true,
        Some(nf) => nf.is_match(name_json.name.as_str()),
    };
    if !keep {
        return Err(
            RowError::Filtered { name: name_json.name, pid: record.identifier.path.clone() },
        );
    }
    proof {
        lemma_name_json_text_agrees(name_json, normalize_spec(*record, org_map@)->Some_0);
    }
    let json = name_json_compact(&name_json);
    Ok(
        Row {
            created: String::from_str(created_dt),
            updated: String::from_str(created_dt),
            id: fresh_uuid(),
            json,
            version_id: 1,
            pid: record.identifier.path.clone(),
        },
    )
}

} // verus!
