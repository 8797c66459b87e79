//! Rendering of normalized identities as JSON text: a compact single-line
//! form for line-delimited output and an indented form for single-document
//! output. The escaping and layout are stated exactly, character by
//! character.

use vstd::prelude::*;

use crate::normalize::{aff_view, affs_view, name_json_matches, AffView, NameAffiliation, NameIdentifier, NameJson, NameView};
use crate::text::push_char;

verus! {

/// The lowercase hexadecimal digit for `n` (0 to 15).
pub open spec fn hex_digit(n: int) -> char {
    if n == 0 {
        '0'
    } else if n == 1 {
        '1'
    } else if n == 2 {
        '2'
    } else if n == 3 {
        '3'
    } else if n == 4 {
        '4'
    } else if n == 5 {
        '5'
    } else if n == 6 {
        '6'
    } else if n == 7 {
        '7'
    } else if n == 8 {
        '8'
    } else if n == 9 {
        '9'
    } else if n == 10 {
        'a'
    } else if n == 11 {
        'b'
    } else if n == 12 {
        'c'
    } else if n == 13 {
        'd'
    } else if n == 14 {
        'e'
    } else {
        'f'
    }
}

/// How one character appears inside a JSON string: quote and backslash get a
/// backslash escape, the named control characters their short escape, any
/// other control character a \u00.. escape, and everything else stands as
/// itself.
pub open spec fn esc_char(c: char) -> Seq<char> {
    if c == '"' {
        "\\\""@
    } else if c == '\\' {
        "\\\\"@
    } else if c == '\u{08}' {
        "\\b"@
    } else if c == '\u{0c}' {
        "\\f"@
    } else if c == '\n' {
        "\\n"@
    } else if c == '\r' {
        "\\r"@
    } else if c == '\t' {
        "\\t"@
    } else if (c as u32) < 0x20 {
        "\\u00"@ + seq![hex_digit((c as u32) as int / 16), hex_digit((c as u32) as int % 16)]
    } else {
        seq![c]
    }
}

/// A character sequence escaped for use inside a JSON string literal.
pub open spec fn json_escape(s: Seq<char>) -> Seq<char>
    decreases s.len(),
{
    if s.len() == 0 {
        Seq::empty()
    } else {
        json_escape(s.drop_last()) + esc_char(s.last())
    }
}

/// One identifier entry as a compact JSON object.
pub open spec fn ident_json(x: NameIdentifier) -> Seq<char> {
    "{\"scheme\":\""@ + json_escape(x.scheme@) + "\",\"identifier\":\""@ + json_escape(
        x.identifier@,
    ) + "\"}"@
}

/// The members of the identifier array, comma-separated.
pub open spec fn idents_items(s: Seq<NameIdentifier>) -> Seq<char>
    decreases s.len(),
{
    if s.len() == 0 {
        Seq::empty()
    } else if s.len() == 1 {
        ident_json(s[0])
    } else {
        idents_items(s.drop_last()) + ","@ + ident_json(s.last())
    }
}

/// The identifier array as compact JSON.
pub open spec fn idents_json(s: Seq<NameIdentifier>) -> Seq<char> {
    "["@ + idents_items(s) + "]"@
}

/// One affiliation as a compact JSON object; the id member is present only
/// when the affiliation has a canonical id.
pub open spec fn aff_json(a: NameAffiliation) -> Seq<char> {
    match a.id {
        Some(id) => "{\"id\":\""@ + json_escape(id@) + "\",\"name\":\""@ + json_escape(a.name@)
            + "\"}"@,
        None => "{\"name\":\""@ + json_escape(a.name@) + "\"}"@,
    }
}

/// The members of the affiliation array, comma-separated.
pub open spec fn affs_items(s: Seq<NameAffiliation>) -> Seq<char>
    decreases s.len(),
{
    if s.len() == 0 {
        Seq::empty()
    } else if s.len() == 1 {
        aff_json(s[0])
    } else {
        affs_items(s.drop_last()) + ","@ + aff_json(s.last())
    }
}

/// The affiliation array as compact JSON.
pub open spec fn affs_json(s: Seq<NameAffiliation>) -> Seq<char> {
    "["@ + affs_items(s) + "]"@
}

/// The compact single-line JSON form of one normalized identity: the fixed
/// schema tag, the three name fields, the identifier array, and the
/// affiliation array only when present.
pub open spec fn name_json_text(n: NameJson) -> Seq<char> {
    let pre = "{\"$schema\":\"local://names/name-v1.0.0.json\",\"given_name\":\""@ + json_escape(
        n.given_name@,
    ) + "\",\"family_name\":\""@ + json_escape(n.family_name@) + "\",\"name\":\""@ + json_escape(
        n.name@,
    ) + "\",\"identifiers\":"@ + idents_json(n.identifiers@);
    match n.affiliations {
        None => pre + "}"@,
        Some(affs) => pre + ",\"affiliations\":"@ + affs_json(affs@) + "}"@,
    }
}

/// The lowercase hexadecimal digit for `n`.
pub fn hex_digit_ch(n: u32) -> (c: char)
    requires
        n < 16,
    ensures
        c == hex_digit(n as int),
{
    if n == 0 {
        '0'
    } else if n == 1 {
        '1'
    } else if n == 2 {
        '2'
    } else if n == 3 {
        '3'
    } else if n == 4 {
        '4'
    } else if n == 5 {
        '5'
    } else if n == 6 {
        '6'
    } else if n == 7 {
        '7'
    } else if n == 8 {
        '8'
    } else if n == 9 {
        '9'
    } else if n == 10 {
        'a'
    } else if n == 11 {
        'b'
    } else if n == 12 {
        'c'
    } else if n == 13 {
        'd'
    } else if n == 14 {
        'e'
    } else {
        'f'
    }
}

/// Appends the characters of `s`, escaped for a JSON string literal.
pub fn push_escaped(out: &mut String, s: &str)
    ensures
        final(out)@ == old(out)@ + json_escape(s@),
{
    let n = s.unicode_len();
    let mut i: usize = 0;
    while i < n
        invariant
            0 <= i <= n,
            n == s@.len(),
            out@ == old(out)@ + json_escape(s@.subrange(0, i as int)),
        decreases n - i,
    {
        let c = s.get_char(i);
        if c == '"' {
            out.append("\\\"");
        } else if c == '\\' {
            out.append("\\\\");
        } else if c == '\u{08}' {
            out.append("\\b");
        } else if c == '\u{0c}' {
            out.append("\\f");
        } else if c == '\n' {
            out.append("\\n");
        } else if c == '\r' {
            out.append("\\r");
        } else if c == '\t' {
            out.append("\\t");
        } else if (c as u32) < 0x20 {
            out.append("\\u00");
            push_char(out, hex_digit_ch((c as u32) / 16));
            push_char(out, hex_digit_ch((c as u32) % 16));
        } else {
            push_char(out, c);
        }
        i += 1;
        proof {
            let pre = s@.subrange(0, i as int);
            assert(pre.drop_last() =~= s@.subrange(0, i - 1));
            assert(out@ =~= old(out)@ + json_escape(pre));
        }
    }
    proof {
        assert(s@.subrange(0, n as int) =~= s@);
    }
}

/// One identifier entry as a compact JSON object.
fn ident_json_str(x: &NameIdentifier) -> (r: String)
    ensures
        r@ == ident_json(*x),
{
    let mut r = String::new();
    r.append("{\"scheme\":\"");
    proof {
        assert(r@ =~= "{\"scheme\":\""@);
    }
    push_escaped(&mut r, x.scheme.as_str());
    r.append("\",\"identifier\":\"");
    push_escaped(&mut r, x.identifier.as_str());
    r.append("\"}");
    r
}

/// The members of the identifier array, comma-separated.
fn idents_items_str(v: &Vec<NameIdentifier>) -> (r: String)
    ensures
        r@ == idents_items(v@),
{
    let mut r = String::new();
    let mut i: usize = 0;
    while i < v.len()
        invariant
            0 <= i <= v@.len(),
            r@ == idents_items(v@.subrange(0, i as int)),
        decreases v@.len() - i,
    {
        if i > 0 {
            r.append(",");
        }
        let item = ident_json_str(&v[i]);
        r.append(item.as_str());
        i += 1;
        proof {
            let pre = v@.subrange(0, i as int);
            assert(pre.drop_last() =~= v@.subrange(0, i - 1));
            assert(r@ =~= idents_items(pre));
        }
    }
    proof {
        assert(v@.subrange(0, v@.len() as int) =~= v@);
    }
    r
}

/// One affiliation as a compact JSON object.
fn aff_json_str(a: &NameAffiliation) -> (r: String)
    ensures
        r@ == aff_json(*a),
{
    let mut r = String::new();
    match &a.id {
        Some(id) => {
            r.append("{\"id\":\"");
            proof {
                assert(r@ =~= "{\"id\":\""@);
            }
            push_escaped(&mut r, id.as_str());
            r.append("\",\"name\":\"");
        },
        None => {
            r.append("{\"name\":\"");
            proof {
                assert(r@ =~= "{\"name\":\""@);
            }
        },
    }
    push_escaped(&mut r, a.name.as_str());
    r.append("\"}");
    r
}

/// The members of the affiliation array, comma-separated.
fn affs_items_str(v: &Vec<NameAffiliation>) -> (r: String)
    ensures
        r@ == affs_items(v@),
{
    let mut r = String::new();
    let mut i: usize = 0;
    while i < v.len()
        invariant
            0 <= i <= v@.len(),
            r@ == affs_items(v@.subrange(0, i as int)),
        decreases v@.len() - i,
    {
        if i > 0 {
            r.append(",");
        }
        let item = aff_json_str(&v[i]);
        r.append(item.as_str());
        i += 1;
        proof {
            let pre = v@.subrange(0, i as int);
            assert(pre.drop_last() =~= v@.subrange(0, i - 1));
            assert(r@ =~= affs_items(pre));
        }
    }
    proof {
        assert(v@.subrange(0, v@.len() as int) =~= v@);
    }
    r
}

/// The compact single-line JSON form of one normalized identity.
pub fn name_json_compact(n: &NameJson) -> (r: String)
    ensures
        r@ == name_json_text(*n),
{
    let mut r = String::new();
    r.append("{\"$schema\":\"local://names/name-v1.0.0.json\",\"given_name\":\"");
    proof {
        assert(r@ =~= "{\"$schema\":\"local://names/name-v1.0.0.json\",\"given_name\":\""@);
    }
    push_escaped(&mut r, n.given_name.as_str());
    r.append("\",\"family_name\":\"");
    push_escaped(&mut r, n.family_name.as_str());
    r.append("\",\"name\":\"");
    push_escaped(&mut r, n.name.as_str());
    r.append("\",\"identifiers\":");
    r.append("[");
    let ids = idents_items_str(&n.identifiers);
    r.append(ids.as_str());
    r.append("]");
    match &n.affiliations {
        None => {
            r.append("}");
        },
        Some(affs) => {
            r.append(",\"affiliations\":");
            r.append("[");
            let aj = affs_items_str(affs);
            r.append(aj.as_str());
            r.append("]");
            r.append("}");
        },
    }
    proof {
        assert(r@ =~= name_json_text(*n));
    }
    r
}

/// One identifier entry as an indented JSON object (array member at the
/// second indent level).
pub open spec fn ident_json_pretty(x: NameIdentifier) -> Seq<char> {
    "\n    {\n      \"scheme\": \""@ + json_escape(x.scheme@) + "\",\n      \"identifier\": \""@
        + json_escape(x.identifier@) + "\"\n    }"@
}

/// The members of the indented identifier array.
pub open spec fn idents_items_pretty(s: Seq<NameIdentifier>) -> Seq<char>
    decreases s.len(),
{
    if s.len() == 0 {
        Seq::empty()
    } else if s.len() == 1 {
        ident_json_pretty(s[0])
    } else {
        idents_items_pretty(s.drop_last()) + ","@ + ident_json_pretty(s.last())
    }
}

/// The identifier array in the indented form.
pub open spec fn idents_json_pretty(s: Seq<NameIdentifier>) -> Seq<char> {
    if s.len() == 0 {
        "[]"@
    } else {
        "["@ + idents_items_pretty(s) + "\n  ]"@
    }
}

/// One affiliation as an indented JSON object.
pub open spec fn aff_json_pretty(a: NameAffiliation) -> Seq<char> {
    match a.id {
        Some(id) => "\n    {\n      \"id\": \""@ + json_escape(id@) + "\",\n      \"name\": \""@
            + json_escape(a.name@) + "\"\n    }"@,
        None => "\n    {\n      \"name\": \""@ + json_escape(a.name@) + "\"\n    }"@,
    }
}

/// The members of the indented affiliation array.
pub open spec fn affs_items_pretty(s: Seq<NameAffiliation>) -> Seq<char>
    decreases s.len(),
{
    if s.len() == 0 {
        Seq::empty()
    } else if s.len() == 1 {
        aff_json_pretty(s[0])
    } else {
        affs_items_pretty(s.drop_last()) + ","@ + aff_json_pretty(s.last())
    }
}

/// The affiliation array in the indented form.
pub open spec fn affs_json_pretty(s: Seq<NameAffiliation>) -> Seq<char> {
    if s.len() == 0 {
        "[]"@
    } else {
        "["@ + affs_items_pretty(s) + "\n  ]"@
    }
}

/// The indented JSON form of one normalized identity, two spaces per level.
pub open spec fn name_json_pretty_text(n: NameJson) -> Seq<char> {
    let pre = "{\n  \"$schema\": \"local://names/name-v1.0.0.json\",\n  \"given_name\": \""@
        + json_escape(n.given_name@) + "\",\n  \"family_name\": \""@ + json_escape(n.family_name@)
        + "\",\n  \"name\": \""@ + json_escape(n.name@) + "\",\n  \"identifiers\": "@
        + idents_json_pretty(n.identifiers@);
    match n.affiliations {
        None => pre + "\n}"@,
        Some(affs) => pre + ",\n  \"affiliations\": "@ + affs_json_pretty(affs@) + "\n}"@,
    }
}

/// One identifier entry in the indented form.
fn ident_json_pretty_str(x: &NameIdentifier) -> (r: String)
    ensures
        r@ == ident_json_pretty(*x),
{
    let mut r = String::new();
    r.append("\n    {\n      \"scheme\": \"");
    proof {
        assert(r@ =~= "\n    {\n      \"scheme\": \""@);
    }
    push_escaped(&mut r, x.scheme.as_str());
    r.append("\",\n      \"identifier\": \"");
    push_escaped(&mut r, x.identifier.as_str());
    r.append("\"\n    }");
    r
}

/// The members of the indented identifier array.
fn idents_items_pretty_str(v: &Vec<NameIdentifier>) -> (r: String)
    ensures
        r@ == idents_items_pretty(v@),
{
    let mut r = String::new();
    let mut i: usize = 0;
    while i < v.len()
        invariant
            0 <= i <= v@.len(),
            r@ == idents_items_pretty(v@.subrange(0, i as int)),
        decreases v@.len() - i,
    {
        if i > 0 {
            r.append(",");
        }
        let item = ident_json_pretty_str(&v[i]);
        r.append(item.as_str());
        i += 1;
        proof {
            let pre = v@.subrange(0, i as int);
            assert(pre.drop_last() =~= v@.subrange(0, i - 1));
            assert(r@ =~= idents_items_pretty(pre));
        }
    }
    proof {
        assert(v@.subrange(0, v@.len() as int) =~= v@);
    }
    r
}

/// One affiliation in the indented form.
fn aff_json_pretty_str(a: &NameAffiliation) -> (r: String)
    ensures
        r@ == aff_json_pretty(*a),
{
    let mut r = String::new();
    match &a.id {
        Some(id) => {
            r.append("\n    {\n      \"id\": \"");
            proof {
                assert(r@ =~= "\n    {\n      \"id\": \""@);
            }
            push_escaped(&mut r, id.as_str());
            r.append("\",\n      \"name\": \"");
        },
        None => {
            r.append("\n    {\n      \"name\": \"");
            proof {
                assert(r@ =~= "\n    {\n      \"name\": \""@);
            }
        },
    }
    push_escaped(&mut r, a.name.as_str());
    r.append("\"\n    }");
    r
}

/// The members of the indented affiliation array.
fn affs_items_pretty_str(v: &Vec<NameAffiliation>) -> (r: String)
    ensures
        r@ == affs_items_pretty(v@),
{
    let mut r = String::new();
    let mut i: usize = 0;
    while i < v.len()
        invariant
            0 <= i <= v@.len(),
            r@ == affs_items_pretty(v@.subrange(0, i as int)),
        decreases v@.len() - i,
    {
        if i > 0 {
            r.append(",");
        }
        let item = aff_json_pretty_str(&v[i]);
        r.append(item.as_str());
        i += 1;
        proof {
            let pre = v@.subrange(0, i as int);
            assert(pre.drop_last() =~= v@.subrange(0, i - 1));
            assert(r@ =~= affs_items_pretty(pre));
        }
    }
    proof {
        assert(v@.subrange(0, v@.len() as int) =~= v@);
    }
    r
}

/// The indented JSON form of one normalized identity.
pub fn name_json_pretty(n: &NameJson) -> (r: String)
    ensures
        r@ == name_json_pretty_text(*n),
{
    let mut r = String::new();
    r.append("{\n  \"$schema\": \"local://names/name-v1.0.0.json\",\n  \"given_name\": \"");
    proof {
        assert(r@ =~= "{\n  \"$schema\": \"local://names/name-v1.0.0.json\",\n  \"given_name\": \""@);
    }
    push_escaped(&mut r, n.given_name.as_str());
    r.append("\",\n  \"family_name\": \"");
    push_escaped(&mut r, n.family_name.as_str());
    r.append("\",\n  \"name\": \"");
    push_escaped(&mut r, n.name.as_str());
    r.append("\",\n  \"identifiers\": ");
    if n.identifiers.len() == 0 {
        r.append("[]");
    } else {
        r.append("[");
        let ids = idents_items_pretty_str(&n.identifiers);
        r.append(ids.as_str());
        r.append("\n  ]");
    }
    match &n.affiliations {
        None => {
            r.append("\n}");
        },
        Some(affs) => {
            r.append(",\n  \"affiliations\": ");
            if affs.len() == 0 {
                r.append("[]");
            } else {
                r.append("[");
                let aj = affs_items_pretty_str(affs);
                r.append(aj.as_str());
                r.append("\n  ]");
            }
            r.append("\n}");
        },
    }
    proof {
        assert(r@ =~= name_json_pretty_text(*n));
    }
    r
}

/// One affiliation, in its mathematical form, as a compact JSON object.
pub open spec fn aff_json_v(a: AffView) -> Seq<char> {
    match a.id {
        Some(id) => "{\"id\":\""@ + json_escape(id) + "\",\"name\":\""@ + json_escape(a.name)
            + "\"}"@,
        None => "{\"name\":\""@ + json_escape(a.name) + "\"}"@,
    }
}

/// The members of the affiliation array over mathematical affiliations.
pub open spec fn affs_items_v(s: Seq<AffView>) -> Seq<char>
    decreases s.len(),
{
    if s.len() == 0 {
        Seq::empty()
    } else if s.len() == 1 {
        aff_json_v(s[0])
    } else {
        affs_items_v(s.drop_last()) + ","@ + aff_json_v(s.last())
    }
}

/// The compact JSON form of a normalized identity, stated over its
/// mathematical form alone.
pub open spec fn name_json_text_v(v: NameView) -> Seq<char> {
    let pre = "{\"$schema\":\"local://names/name-v1.0.0.json\",\"given_name\":\""@ + json_escape(
        v.given,
    ) + "\",\"family_name\":\""@ + json_escape(v.family) + "\",\"name\":\""@ + json_escape(
        v.display,
    ) + "\",\"identifiers\":"@ + ("["@ + ("{\"scheme\":\""@ + json_escape("orcid"@)
        + "\",\"identifier\":\""@ + json_escape(v.orcid) + "\"}"@) + "]"@);
    if v.affs.len() == 0 {
        pre + "}"@
    } else {
        pre + ",\"affiliations\":"@ + ("["@ + affs_items_v(v.affs) + "]"@) + "}"@
    }
}

proof fn lemma_affs_items_agree(affs: Seq<NameAffiliation>, vs: Seq<AffView>)
    requires
        affs_view(affs) == vs,
    ensures
        affs_items(affs) == affs_items_v(vs),
    decreases affs.len(),
{
    if affs.len() > 0 {
        assert(affs_view(affs.drop_last()) =~= vs.drop_last());
        lemma_affs_items_agree(affs.drop_last(), vs.drop_last());
        assert(aff_view(affs.last()) == vs.last());
        assert(aff_json(affs.last()) == aff_json_v(vs.last()));
    }
}

/// An in-memory value that denotes the mathematical identity `v` renders to
/// the text determined by `v` alone.
pub proof fn lemma_name_json_text_agrees(n: NameJson, v: NameView)
    requires
        name_json_matches(n, v),
    ensures
        name_json_text(n) == name_json_text_v(v),
{
    assert(idents_items(n.identifiers@) == ident_json(n.identifiers@[0]));
    match n.affiliations {
        None => {
            assert(name_json_text(n) =~= name_json_text_v(v));
        },
        Some(affs) => {
            lemma_affs_items_agree(affs@, v.affs);
            assert(name_json_text(n) =~= name_json_text_v(v));
        },
    }
}

/// The value of a lowercase hexadecimal digit, or 16 for any other
/// character.
pub open spec fn hex_val(c: char) -> int {
    if c == '0' {
        0
    } else if c == '1' {
        1
    } else if c == '2' {
        2
    } else if c == '3' {
        3
    } else if c == '4' {
        4
    } else if c == '5' {
        5
    } else if c == '6' {
        6
    } else if c == '7' {
        7
    } else if c == '8' {
        8
    } else if c == '9' {
        9
    } else if c == 'a' {
        10
    } else if c == 'b' {
        11
    } else if c == 'c' {
        12
    } else if c == 'd' {
        13
    } else if c == 'e' {
        14
    } else if c == 'f' {
        15
    } else {
        16
    }
}

/// Reads a JSON string body from the front of `t` up to its closing quote:
/// the decoded value and what follows the quote, or nothing on a malformed
/// body.
pub open spec fn scan_jstring(t: Seq<char>) -> Option<(Seq<char>, Seq<char>)>
    decreases t.len(),
{
    if t.len() == 0 {
        None
    } else if t[0] == '"' {
        Some((Seq::empty(), t.drop_first()))
    } else if t[0] == '\\' {
        if t.len() < 2 {
            None
        } else if t[1] == 'u' {
            if t.len() < 6 || t[2] != '0' || t[3] != '0' || hex_val(t[4]) >= 16 || hex_val(t[5])
                >= 16 {
                None
            } else {
                let c = ((16 * hex_val(t[4]) + hex_val(t[5])) as u32) as char;
                match scan_jstring(t.subrange(6, t.len() as int)) {
                    Some((v, r)) => Some((seq![c] + v, r)),
                    None => None,
                }
            }
        } else {
            let c: char = if t[1] == '"' {
                '"'
            } else if t[1] == '\\' {
                '\\'
            } else if t[1] == 'b' {
                '\u{08}'
            } else if t[1] == 'f' {
                '\u{0c}'
            } else if t[1] == 'n' {
                '\n'
            } else if t[1] == 'r' {
                '\r'
            } else if t[1] == 't' {
                '\t'
            } else {
                ' '
            };
            if t[1] == '"' || t[1] == '\\' || t[1] == 'b' || t[1] == 'f' || t[1] == 'n' || t[1]
                == 'r' || t[1] == 't' {
                match scan_jstring(t.subrange(2, t.len() as int)) {
                    Some((v, r)) => Some((seq![c] + v, r)),
                    None => None,
                }
            } else {
                None
            }
        }
    } else {
        match scan_jstring(t.drop_first()) {
            Some((v, r)) => Some((seq![t[0]] + v, r)),
            None => None,
        }
    }
}

proof fn lemma_escape_first(s: Seq<char>)
    requires
        s.len() > 0,
    ensures
        json_escape(s) == esc_char(s[0]) + json_escape(s.drop_first()),
    decreases s.len(),
{
    if s.len() == 1 {
        assert(s.drop_last() =~= Seq::<char>::empty());
        assert(s.drop_first() =~= Seq::<char>::empty());
        assert(json_escape(s) =~= esc_char(s[0]) + json_escape(s.drop_first()));
    } else {
        let p = s.drop_last();
        lemma_escape_first(p);
        assert(s.drop_first().drop_last() =~= p.drop_first());
        assert(s.drop_first().last() == s.last());
        assert(p[0] == s[0]);
        assert(json_escape(s) =~= esc_char(s[0]) + json_escape(s.drop_first()));
    }
}

/// Reading back the escaped form of `s`, followed by its closing quote and
/// anything after it, recovers exactly `s` and the rest.
proof fn lemma_scan_escaped(s: Seq<char>, rest: Seq<char>)
    ensures
        scan_jstring(json_escape(s) + seq!['"'] + rest) == Some((s, rest)),
    decreases s.len(),
{
    reveal_strlit("\\\"");
    reveal_strlit("\\\\");
    reveal_strlit("\\b");
    reveal_strlit("\\f");
    reveal_strlit("\\n");
    reveal_strlit("\\r");
    reveal_strlit("\\t");
    reveal_strlit("\\u00");
    let t = json_escape(s) + seq!['"'] + rest;
    if s.len() == 0 {
        assert(t =~= seq!['"'] + rest);
        assert(t[0] == '"');
        assert(t.drop_first() =~= rest);
    } else {
        lemma_escape_first(s);
        let c = s[0];
        let e = esc_char(c);
        let t2 = json_escape(s.drop_first()) + seq!['"'] + rest;
        assert(t =~= e + t2);
        lemma_scan_escaped(s.drop_first(), rest);
        if c == '"' {
            assert(t[0] == '\\' && t[1] == '"');
            assert(t.subrange(2, t.len() as int) =~= t2);
            assert(seq![c] + s.drop_first() =~= s);
        } else if c == '\\' {
            assert(t[0] == '\\' && t[1] == '\\');
            assert(t.subrange(2, t.len() as int) =~= t2);
            assert(seq![c] + s.drop_first() =~= s);
        } else if c == '\u{08}' {
            assert(t[0] == '\\' && t[1] == 'b');
            assert(t.subrange(2, t.len() as int) =~= t2);
            assert(seq![c] + s.drop_first() =~= s);
        } else if c == '\u{0c}' {
            assert(t[0] == '\\' && t[1] == 'f');
            assert(t.subrange(2, t.len() as int) =~= t2);
            assert(seq![c] + s.drop_first() =~= s);
        } else if c == '\n' {
            assert(t[0] == '\\' && t[1] == 'n');
            assert(t.subrange(2, t.len() as int) =~= t2);
            assert(seq![c] + s.drop_first() =~= s);
        } else if c == '\r' {
            assert(t[0] == '\\' && t[1] == 'r');
            assert(t.subrange(2, t.len() as int) =~= t2);
            assert(seq![c] + s.drop_first() =~= s);
        } else if c == '\t' {
            assert(t[0] == '\\' && t[1] == 't');
            assert(t.subrange(2, t.len() as int) =~= t2);
            assert(seq![c] + s.drop_first() =~= s);
        } else if (c as u32) < 0x20 {
            let hi = (c as u32) as int / 16;
            let lo = (c as u32) as int % 16;
            assert(t[0] == '\\' && t[1] == 'u' && t[2] == '0' && t[3] == '0');
            assert(t[4] == hex_digit(hi) && t[5] == hex_digit(lo));
            assert(hex_val(hex_digit(hi)) == hi && hex_val(hex_digit(lo)) == lo);
            assert(t.subrange(6, t.len() as int) =~= t2);
            assert(((16 * hi + lo) as u32) == c as u32);
            vstd::utf8::char_u32_cast(c, (16 * hi + lo) as u32);
            assert((((16 * hex_val(t[4]) + hex_val(t[5])) as u32) as char) == c);
            assert(seq![c] + s.drop_first() =~= s);
        } else {
            assert(t[0] == c && c != '"' && c != '\\');
            assert(t.drop_first() =~= t2);
            assert(seq![c] + s.drop_first() =~= s);
        }
    }
}

/// What follows `l` in `t` when `t` starts with `l`, else nothing.
pub open spec fn expect_lit(t: Seq<char>, l: Seq<char>) -> Option<Seq<char>> {
    if l.len() <= t.len() && t.subrange(0, l.len() as int) == l {
        Some(t.subrange(l.len() as int, t.len() as int))
    } else {
        None
    }
}

proof fn lemma_expect_lit(l: Seq<char>, rest: Seq<char>)
    ensures
        expect_lit(l + rest, l) == Some(rest),
{
    let t = l + rest;
    assert(t.subrange(0, l.len() as int) =~= l);
    assert(t.subrange(l.len() as int, t.len() as int) =~= rest);
}

/// The structural content of a re-parsed identity document.
pub ghost struct ParsedName {
    pub given: Seq<char>,
    pub family: Seq<char>,
    pub display: Seq<char>,
    pub idents: Seq<(Seq<char>, Seq<char>)>,
    pub affs: Option<Seq<(Option<Seq<char>>, Seq<char>)>>,
}

/// Reads one identifier object from the front of `t`.
pub open spec fn parse_ident(t: Seq<char>) -> Option<((Seq<char>, Seq<char>), Seq<char>)> {
    match expect_lit(t, "{\"scheme\":\""@) {
        None => None,
        Some(t1) => match scan_jstring(t1) {
            None => None,
            Some((scheme, t2)) => match expect_lit(t2, ",\"identifier\":\""@) {
                None => None,
                Some(t3) => match scan_jstring(t3) {
                    None => None,
                    Some((identifier, t4)) => match expect_lit(t4, "}"@) {
                        None => None,
                        Some(t5) => Some(((scheme, identifier), t5)),
                    },
                },
            },
        },
    }
}

/// Reads the identifier objects after the first from the front of `t`, up to
/// the closing bracket.
pub open spec fn parse_ident_tail(t: Seq<char>, n: nat) -> Option<
    (Seq<(Seq<char>, Seq<char>)>, Seq<char>),
>
    decreases n,
{
    match expect_lit(t, "]"@) {
        Some(r) => Some((Seq::empty(), r)),
        None => {
            if n == 0 {
                None
            } else {
                match expect_lit(t, ","@) {
                    None => None,
                    Some(t1) => match parse_ident(t1) {
                        None => None,
                        Some((x, t2)) => match parse_ident_tail(t2, (n - 1) as nat) {
                            None => None,
                            Some((xs, r)) => Some((seq![x] + xs, r)),
                        },
                    },
                }
            }
        },
    }
}

/// Reads one affiliation object from the front of `t`.
pub open spec fn parse_aff(t: Seq<char>) -> Option<((Option<Seq<char>>, Seq<char>), Seq<char>)> {
    match expect_lit(t, "{\"id\":\""@) {
        Some(t1) => match scan_jstring(t1) {
            None => None,
            Some((id, t2)) => match expect_lit(t2, ",\"name\":\""@) {
                None => None,
                Some(t3) => match scan_jstring(t3) {
                    None => None,
                    Some((name, t4)) => match expect_lit(t4, "}"@) {
                        None => None,
                        Some(t5) => Some(((Some(id), name), t5)),
                    },
                },
            },
        },
        None => match expect_lit(t, "{\"name\":\""@) {
            None => None,
            Some(t1) => match scan_jstring(t1) {
                None => None,
                Some((name, t2)) => match expect_lit(t2, "}"@) {
                    None => None,
                    Some(t3) => Some(((None, name), t3)),
                },
            },
        },
    }
}

/// Reads the affiliation objects after the first from the front of `t`, up
/// to the closing bracket.
pub open spec fn parse_aff_tail(t: Seq<char>, n: nat) -> Option<
    (Seq<(Option<Seq<char>>, Seq<char>)>, Seq<char>),
>
    decreases n,
{
    match expect_lit(t, "]"@) {
        Some(r) => Some((Seq::empty(), r)),
        None => {
            if n == 0 {
                None
            } else {
                match expect_lit(t, ","@) {
                    None => None,
                    Some(t1) => match parse_aff(t1) {
                        None => None,
                        Some((x, t2)) => match parse_aff_tail(t2, (n - 1) as nat) {
                            None => None,
                            Some((xs, r)) => Some((seq![x] + xs, r)),
                        },
                    },
                }
            }
        },
    }
}

/// Structurally re-parses the compact JSON form of a normalized identity:
/// the fixed members in order, the identifier array, and the affiliation
/// array when present.
pub open spec fn parse_name_json(t: Seq<char>) -> Option<ParsedName> {
    match expect_lit(t, "{\"$schema\":\"local://names/name-v1.0.0.json\",\"given_name\":\""@) {
        None => None,
        Some(t1) => match scan_jstring(t1) {
            None => None,
            Some((given, t2)) => match expect_lit(t2, ",\"family_name\":\""@) {
                None => None,
                Some(t3) => match scan_jstring(t3) {
                    None => None,
                    Some((family, t4)) => match expect_lit(t4, ",\"name\":\""@) {
                        None => None,
                        Some(t5) => match scan_jstring(t5) {
                            None => None,
                            Some((display, t6)) => match expect_lit(t6, ",\"identifiers\":["@) {
                                None => None,
                                Some(t7) => match parse_ident(t7) {
                                    None => None,
                                    Some((i0, t8)) => match parse_ident_tail(t8, t8.len()) {
                                        None => None,
                                        Some((irest, t9)) => {
                                            let idents = seq![i0] + irest;
                                            match expect_lit(t9, "}"@) {
                                                Some(t10) => {
                                                    if t10.len() == 0 {
                                                        Some(
                                                            ParsedName {
                                                                given,
                                                                family,
                                                                display,
                                                                idents,
                                                                affs: None,
                                                            },
                                                        )
                                                    } else {
                                                        None
                                                    }
                                                },
                                                None => match expect_lit(
                                                    t9,
                                                    ",\"affiliations\":["@,
                                                ) {
                                                    None => None,
                                                    Some(t10) => match parse_aff(t10) {
                                                        None => None,
                                                        Some((a0, t11)) => match parse_aff_tail(
                                                            t11,
                                                            t11.len(),
                                                        ) {
                                                            None => None,
                                                            Some((arest, t12)) => {
                                                                let affs = seq![a0] + arest;
                                                                match expect_lit(t12, "}"@) {
                                                                    None => None,
                                                                    Some(t13) => {
                                                                        if t13.len() == 0 {
                                                                            Some(
                                                                                ParsedName {
                                                                                    given,
                                                                                    family,
                                                                                    display,
                                                                                    idents,
                                                                                    affs: Some(
                                                                                        affs,
                                                                                    ),
                                                                                },
                                                                            )
                                                                        } else {
                                                                            None
                                                                        }
                                                                    },
                                                                }
                                                            },
                                                        },
                                                    },
                                                },
                                            }
                                        },
                                    },
                                },
                            },
                        },
                    },
                },
            },
        },
    }
}

/// The structural content of one affiliation value.
pub open spec fn aff_pair(a: NameAffiliation) -> (Option<Seq<char>>, Seq<char>) {
    (
        match a.id {
            Some(id) => Some(id@),
            None => None,
        },
        a.name@,
    )
}

/// The structural content of an affiliation list.
pub open spec fn aff_pairs(s: Seq<NameAffiliation>) -> Seq<(Option<Seq<char>>, Seq<char>)> {
    Seq::new(s.len(), |i: int| aff_pair(s[i]))
}

proof fn lemma_parse_ident_one(x: NameIdentifier, rest: Seq<char>)
    ensures
        parse_ident(ident_json(x) + rest) == Some(((x.scheme@, x.identifier@), rest)),
{
    reveal_strlit("{\"scheme\":\"");
    reveal_strlit("\",\"identifier\":\"");
    reveal_strlit(",\"identifier\":\"");
    reveal_strlit("\"}");
    reveal_strlit("}");
    let t = ident_json(x) + rest;
    let l1 = "{\"scheme\":\""@;
    let r1 = json_escape(x.scheme@) + seq!['"'] + (",\"identifier\":\""@ + (json_escape(
        x.identifier@,
    ) + seq!['"'] + ("}"@ + rest)));
    assert(t =~= l1 + r1);
    lemma_expect_lit(l1, r1);
    lemma_scan_escaped(
        x.scheme@,
        ",\"identifier\":\""@ + (json_escape(x.identifier@) + seq!['"'] + ("}"@ + rest)),
    );
    lemma_expect_lit(
        ",\"identifier\":\""@,
        json_escape(x.identifier@) + seq!['"'] + ("}"@ + rest),
    );
    lemma_scan_escaped(x.identifier@, "}"@ + rest);
    lemma_expect_lit("}"@, rest);
}

proof fn lemma_parse_aff_one(a: NameAffiliation, rest: Seq<char>)
    ensures
        parse_aff(aff_json(a) + rest) == Some((aff_pair(a), rest)),
{
    reveal_strlit("{\"id\":\"");
    reveal_strlit("{\"name\":\"");
    reveal_strlit("\",\"name\":\"");
    reveal_strlit(",\"name\":\"");
    reveal_strlit("\"}");
    reveal_strlit("}");
    let t = aff_json(a) + rest;
    match a.id {
        Some(id) => {
            let l1 = "{\"id\":\""@;
            let r1 = json_escape(id@) + seq!['"'] + (",\"name\":\""@ + (json_escape(a.name@)
                + seq!['"'] + ("}"@ + rest)));
            assert(t =~= l1 + r1);
            lemma_expect_lit(l1, r1);
            lemma_scan_escaped(
                id@,
                ",\"name\":\""@ + (json_escape(a.name@) + seq!['"'] + ("}"@ + rest)),
            );
            lemma_expect_lit(",\"name\":\""@, json_escape(a.name@) + seq!['"'] + ("}"@ + rest));
            lemma_scan_escaped(a.name@, "}"@ + rest);
            lemma_expect_lit("}"@, rest);
        },
        None => {
            let l1 = "{\"name\":\""@;
            let r1 = json_escape(a.name@) + seq!['"'] + ("}"@ + rest);
            assert(t =~= l1 + r1);
            // the id form does not match: the third character differs
            assert(expect_lit(t, "{\"id\":\""@) is None) by {
                if expect_lit(t, "{\"id\":\""@) is Some {
                    assert(t.subrange(0, 7)[2] == t[2]);
                    assert(t[2] == 'n');
                }
            }
            lemma_expect_lit(l1, r1);
            lemma_scan_escaped(a.name@, "}"@ + rest);
            lemma_expect_lit("}"@, rest);
        },
    }
}

/// The text of the affiliation members after the first, each behind its
/// comma, then the closing bracket and `rest`.
pub open spec fn aff_tail_text(s: Seq<NameAffiliation>, rest: Seq<char>) -> Seq<char>
    decreases s.len(),
{
    if s.len() == 0 {
        "]"@ + rest
    } else {
        ","@ + (aff_json(s[0]) + aff_tail_text(s.drop_first(), rest))
    }
}

proof fn lemma_affs_items_first(s: Seq<NameAffiliation>)
    requires
        s.len() >= 2,
    ensures
        affs_items(s) == aff_json(s[0]) + ","@ + affs_items(s.drop_first()),
    decreases s.len(),
{
    let p = s.drop_last();
    if s.len() == 2 {
        assert(p.drop_last() =~= Seq::<NameAffiliation>::empty());
        assert(p[0] == s[0]);
        assert(affs_items(p) == aff_json(s[0]));
        assert(s.drop_first()[0] == s.last());
        assert(affs_items(s.drop_first()) == aff_json(s.last()));
        assert(affs_items(s) =~= aff_json(s[0]) + ","@ + affs_items(s.drop_first()));
    } else {
        lemma_affs_items_first(p);
        assert(p[0] == s[0]);
        assert(s.drop_first().drop_last() =~= p.drop_first());
        assert(s.drop_first().last() == s.last());
        assert(s.drop_first().len() >= 2);
        assert(affs_items(s.drop_first()) == affs_items(p.drop_first()) + ","@ + aff_json(
            s.last(),
        ));
        assert(affs_items(s) == (aff_json(s[0]) + ","@ + affs_items(p.drop_first())) + ","@
            + aff_json(s.last()));
        assert(affs_items(s) =~= aff_json(s[0]) + ","@ + affs_items(s.drop_first()));
    }
}

proof fn lemma_affs_text_split(s: Seq<NameAffiliation>, rest: Seq<char>)
    requires
        s.len() >= 1,
    ensures
        affs_items(s) + "]"@ + rest == aff_json(s[0]) + aff_tail_text(s.drop_first(), rest),
    decreases s.len(),
{
    if s.len() == 1 {
        assert(s.drop_first() =~= Seq::<NameAffiliation>::empty());
        assert(affs_items(s) + "]"@ + rest =~= aff_json(s[0]) + aff_tail_text(
            s.drop_first(),
            rest,
        ));
    } else {
        let sdf = s.drop_first();
        lemma_affs_items_first(s);
        lemma_affs_text_split(sdf, rest);
        assert(affs_items(s) + "]"@ + rest =~= aff_json(s[0]) + (","@ + (affs_items(sdf) + "]"@
            + rest)));
        assert(aff_tail_text(sdf, rest) == ","@ + (aff_json(sdf[0]) + aff_tail_text(
            sdf.drop_first(),
            rest,
        )));
        assert(","@ + (affs_items(sdf) + "]"@ + rest) =~= aff_tail_text(sdf, rest));
    }
}

#[verifier::rlimit(50)]
proof fn lemma_parse_aff_tail_gen(s: Seq<NameAffiliation>, rest: Seq<char>, n: nat)
    requires
        n >= s.len(),
    ensures
        parse_aff_tail(aff_tail_text(s, rest), n) == Some((aff_pairs(s), rest)),
    decreases s.len(),
{
    reveal_strlit("]");
    reveal_strlit(",");
    let t = aff_tail_text(s, rest);
    if s.len() == 0 {
        lemma_expect_lit("]"@, rest);
        assert(aff_pairs(s) =~= Seq::<(Option<Seq<char>>, Seq<char>)>::empty());
    } else {
        assert(t[0] == ',');
        assert(expect_lit(t, "]"@) is None) by {
            if expect_lit(t, "]"@) is Some {
                assert(t.subrange(0, 1)[0] == t[0]);
            }
        }
        lemma_expect_lit(","@, aff_json(s[0]) + aff_tail_text(s.drop_first(), rest));
        lemma_parse_aff_one(s[0], aff_tail_text(s.drop_first(), rest));
        lemma_parse_aff_tail_gen(s.drop_first(), rest, (n - 1) as nat);
        assert(seq![aff_pair(s[0])] + aff_pairs(s.drop_first()) =~= aff_pairs(s));
    }
}

proof fn lemma_aff_tail_len(s: Seq<NameAffiliation>, rest: Seq<char>)
    ensures
        aff_tail_text(s, rest).len() >= s.len(),
    decreases s.len(),
{
    reveal_strlit(",");
    if s.len() > 0 {
        lemma_aff_tail_len(s.drop_first(), rest);
    }
}

/// The document text regrouped along the boundaries the re-parser reads:
/// each closing quote split from the literal that follows it.
pub open spec fn regrouped_text(n: NameJson) -> Seq<char> {
    let x = n.identifiers@[0];
    let a8: Seq<char> = match n.affiliations {
        None => "}"@,
        Some(affs) => ",\"affiliations\":["@ + (aff_json(affs@[0]) + aff_tail_text(
            affs@.drop_first(),
            "}"@,
        )),
    };
    let a7 = "]"@ + a8;
    let a6 = ident_json(x) + a7;
    let a5 = ",\"identifiers\":["@ + a6;
    let a4 = json_escape(n.name@) + seq!['"'] + a5;
    let a3 = ",\"name\":\""@ + a4;
    let a2 = json_escape(n.family_name@) + seq!['"'] + a3;
    let a1 = ",\"family_name\":\""@ + a2;
    let a0 = json_escape(n.given_name@) + seq!['"'] + a1;
    "{\"$schema\":\"local://names/name-v1.0.0.json\",\"given_name\":\""@ + a0
}

#[verifier::rlimit(100)]
proof fn lemma_regroup(n: NameJson)
    requires
        n.identifiers@.len() == 1,
        n.affiliations matches Some(affs) ==> affs@.len() >= 1,
    ensures
        name_json_text(n) == regrouped_text(n),
{
    reveal_strlit("\",\"family_name\":\"");
    reveal_strlit(",\"family_name\":\"");
    reveal_strlit("\",\"name\":\"");
    reveal_strlit(",\"name\":\"");
    reveal_strlit("\",\"identifiers\":");
    reveal_strlit(",\"identifiers\":[");
    reveal_strlit(",\"affiliations\":");
    reveal_strlit(",\"affiliations\":[");
    reveal_strlit("[");
    reveal_strlit("]");
    reveal_strlit("}");
    assert(idents_items(n.identifiers@) == ident_json(n.identifiers@[0]));
    match n.affiliations {
        None => {
            assert(name_json_text(n) =~= regrouped_text(n));
        },
        Some(affs) => {
            lemma_affs_text_split(affs@, "}"@);
            assert(affs_items(affs@) + "]"@ + "}"@ == aff_json(affs@[0]) + aff_tail_text(
                affs@.drop_first(),
                "}"@,
            ));
            assert(name_json_text(n) =~= regrouped_text(n));
        },
    }
}

/// Round trip: structurally re-parsing the JSON form of a normalized
/// identity recovers its name fields, its identifier entry and its
/// affiliations. The identity is shaped as the normalizer produces it: one
/// identifier entry, and an affiliation list only when non-empty.
#[verifier::rlimit(100)]
pub proof fn lemma_json_round_trip(n: NameJson)
    requires
        n.identifiers@.len() == 1,
        n.affiliations matches Some(affs) ==> affs@.len() >= 1,
    ensures
        parse_name_json(name_json_text(n)) is Some,
        ({
            let p = parse_name_json(name_json_text(n))->Some_0;
            &&& p.given == n.given_name@
            &&& p.family == n.family_name@
            &&& p.display == n.name@
            &&& p.idents.len() == 1
            &&& p.idents[0] == (n.identifiers@[0].scheme@, n.identifiers@[0].identifier@)
            &&& match (p.affs, n.affiliations) {
                (None, None) => true,
                (Some(ps), Some(affs)) => ps == aff_pairs(affs@),
                _ => false,
            }
        }),
{
    reveal_strlit("\",\"family_name\":\"");
    reveal_strlit(",\"family_name\":\"");
    reveal_strlit("\",\"name\":\"");
    reveal_strlit(",\"name\":\"");
    reveal_strlit("\",\"identifiers\":");
    reveal_strlit(",\"identifiers\":[");
    reveal_strlit(",\"affiliations\":");
    reveal_strlit(",\"affiliations\":[");
    reveal_strlit("[");
    reveal_strlit("]");
    reveal_strlit("}");
    let t = name_json_text(n);
    let x = n.identifiers@[0];
    let e_g = json_escape(n.given_name@);
    let e_f = json_escape(n.family_name@);
    let e_d = json_escape(n.name@);
    let l1 = "{\"$schema\":\"local://names/name-v1.0.0.json\",\"given_name\":\""@;
    lemma_regroup(n);
    let a8: Seq<char> = match n.affiliations {
        None => "}"@,
        Some(affs) => ",\"affiliations\":["@ + (aff_json(affs@[0]) + aff_tail_text(
            affs@.drop_first(),
            "}"@,
        )),
    };
    let a7 = "]"@ + a8;
    let a6 = ident_json(x) + a7;
    let a5 = ",\"identifiers\":["@ + a6;
    let a4 = e_d + seq!['"'] + a5;
    let a3 = ",\"name\":\""@ + a4;
    let a2 = e_f + seq!['"'] + a3;
    let a1 = ",\"family_name\":\""@ + a2;
    let a0 = e_g + seq!['"'] + a1;
    assert(t == l1 + a0);
    lemma_expect_lit(l1, a0);
    lemma_scan_escaped(n.given_name@, a1);
    lemma_expect_lit(",\"family_name\":\""@, a2);
    lemma_scan_escaped(n.family_name@, a3);
    lemma_expect_lit(",\"name\":\""@, a4);
    lemma_scan_escaped(n.name@, a5);
    lemma_expect_lit(",\"identifiers\":["@, a6);
    lemma_parse_ident_one(x, a7);
    lemma_expect_lit("]"@, a8);
    assert(parse_ident_tail(a7, a7.len()) == Some(
        (Seq::<(Seq<char>, Seq<char>)>::empty(), a8),
    ));
    assert(seq![(x.scheme@, x.identifier@)] + Seq::<(Seq<char>, Seq<char>)>::empty() =~= seq![
        (x.scheme@, x.identifier@),
    ]);
    match n.affiliations {
        None => {
            assert(a8 =~= "}"@ + Seq::<char>::empty());
            lemma_expect_lit("}"@, Seq::<char>::empty());
        },
        Some(affs) => {
            assert(a8[0] == ',');
            assert(expect_lit(a8, "}"@) is None) by {
                if expect_lit(a8, "}"@) is Some {
                    assert(a8.subrange(0, 1)[0] == a8[0]);
                }
            }
            let a9 = aff_json(affs@[0]) + aff_tail_text(affs@.drop_first(), "}"@);
            lemma_expect_lit(",\"affiliations\":["@, a9);
            lemma_parse_aff_one(affs@[0], aff_tail_text(affs@.drop_first(), "}"@));
            lemma_aff_tail_len(affs@.drop_first(), "}"@);
            lemma_parse_aff_tail_gen(
                affs@.drop_first(),
                "}"@,
                aff_tail_text(affs@.drop_first(), "}"@).len(),
            );
            assert(seq![aff_pair(affs@[0])] + aff_pairs(affs@.drop_first()) =~= aff_pairs(affs@));
            assert("}"@ =~= "}"@ + Seq::<char>::empty());
            lemma_expect_lit("}"@, Seq::<char>::empty());
        },
    }
}

} // verus!

