//! A small XML reader for record documents: elements with attributes,
//! character data with the five named entities, comments and processing
//! instructions. A document is read into a tree of named nodes; namespace
//! prefixes are dropped, since producers differ in the prefixes they use.

use vstd::prelude::*;


verus! {

/// One element: its local name, its child elements in order, and its
/// character data (all text directly inside it, concatenated, entities
/// resolved).
pub struct XmlNode {
    pub name: Vec<char>,
    pub children: Vec<XmlNode>,
    pub text: Vec<char>,
}

/// The mathematical form of one element.
pub ghost struct XmlNodeV {
    pub name: Seq<char>,
    pub children: Seq<XmlNodeV>,
    pub text: Seq<char>,
}

pub open spec fn node_view(n: XmlNode) -> XmlNodeV
    decreases n,
{
    XmlNodeV { name: n.name@, text: n.text@, children: nodes_view(n.children@) }
}

pub open spec fn nodes_view(s: Seq<XmlNode>) -> Seq<XmlNodeV>
    decreases s,
{
    if s.len() == 0 {
        Seq::empty()
    } else {
        nodes_view(s.drop_last()).push(node_view(s.last()))
    }
}

/// XML whitespace: space, tab, carriage return, line feed.
pub open spec fn xml_space(c: char) -> bool {
    c == ' ' || c == '\t' || c == '\r' || c == '\n'
}

/// Whether the characters of `l` stand in `s` at position `i`.
pub open spec fn lit_at(s: Seq<char>, i: int, l: Seq<char>) -> bool {
    0 <= i && i + l.len() <= s.len() && s.subrange(i, i + l.len()) == l
}

/// The first position at or after `i` whose character ends an element name:
/// whitespace, '/' or '>'.
pub open spec fn name_end(s: Seq<char>, i: int) -> int
    decreases s.len() - i,
{
    if i < 0 || i >= s.len() {
        s.len() as int
    } else if xml_space(s[i]) || s[i] == '/' || s[i] == '>' {
        i
    } else {
        name_end(s, i + 1)
    }
}

/// The first position at or after `i` holding character `c`, or the length.
pub open spec fn find_char(s: Seq<char>, i: int, c: char) -> int
    decreases s.len() - i,
{
    if i < 0 || i >= s.len() {
        s.len() as int
    } else if s[i] == c {
        i
    } else {
        find_char(s, i + 1, c)
    }
}

/// The first position at or after `i` where "-->" stands, or the length.
pub open spec fn find_comment_end(s: Seq<char>, i: int) -> int
    decreases s.len() - i,
{
    if i < 0 || i >= s.len() {
        s.len() as int
    } else if lit_at(s, i, seq!['-', '-', '>']) {
        i
    } else {
        find_comment_end(s, i + 1)
    }
}

/// The first position at or after `i` with a character that is not XML
/// whitespace, or the length.
pub open spec fn skip_space(s: Seq<char>, i: int) -> int
    decreases s.len() - i,
{
    if i < 0 || i >= s.len() {
        s.len() as int
    } else if xml_space(s[i]) {
        skip_space(s, i + 1)
    } else {
        i
    }
}

/// The local part of a possibly prefixed name: everything after the first
/// ':', or the whole name when it has none.
pub open spec fn local_name(n: Seq<char>) -> Seq<char> {
    let k = find_char(n, 0, ':');
    if k < n.len() {
        n.subrange(k + 1, n.len() as int)
    } else {
        n
    }
}

/// The first position at or after `i` holding '<' or '&', or the length.
pub open spec fn text_stop(s: Seq<char>, i: int) -> int
    decreases s.len() - i,
{
    if i < 0 || i >= s.len() {
        s.len() as int
    } else if s[i] == '<' || s[i] == '&' {
        i
    } else {
        text_stop(s, i + 1)
    }
}

/// Character data starting at `i`, with the five named entities resolved,
/// up to the next '<' or the end; `None` on an unknown entity.
pub open spec fn scan_text(s: Seq<char>, i: int) -> Option<(Seq<char>, int)>
    decreases s.len() - i,
{
    let j = text_stop(s, i);
    let seg = s.subrange(i, j);
    if j >= s.len() || s[j] == '<' {
        Some((seg, j))
    } else {
        let (e, k): (char, int) = if lit_at(s, j, seq!['&', 'l', 't', ';']) {
            ('<', j + 4)
        } else if lit_at(s, j, seq!['&', 'g', 't', ';']) {
            ('>', j + 4)
        } else if lit_at(s, j, seq!['&', 'a', 'm', 'p', ';']) {
            ('&', j + 5)
        } else if lit_at(s, j, seq!['&', 'q', 'u', 'o', 't', ';']) {
            ('"', j + 6)
        } else if lit_at(s, j, seq!['&', 'a', 'p', 'o', 's', ';']) {
            ('\'', j + 6)
        } else {
            (' ', -1)
        };
        if k > i && k <= s.len() {
            match scan_text(s, k) {
                Some((rest, end)) => Some((seg + seq![e] + rest, end)),
                None => None,
            }
        } else {
            None
        }
    }
}

/// Skips the attribute region of a start tag, honoring quoted values.
/// Yields whether the tag is self-closing and the position after '>'.
pub open spec fn skip_attrs(s: Seq<char>, i: int) -> Option<(bool, int)>
    decreases s.len() - i,
{
    if i < 0 || i >= s.len() {
        None
    } else if s[i] == '>' {
        Some((false, i + 1))
    } else if s[i] == '/' {
        if i + 1 < s.len() && s[i + 1] == '>' {
            Some((true, i + 2))
        } else {
            None
        }
    } else if s[i] == '"' || s[i] == '\'' {
        let j = find_char(s, i + 1, s[i]);
        if j < s.len() && j + 1 > i {
            skip_attrs(s, j + 1)
        } else {
            None
        }
    } else {
        skip_attrs(s, i + 1)
    }
}

/// One element starting at `i` (at its '<'): start tag, content, matching
/// end tag. Yields the node and the position after the end tag.
pub open spec fn parse_element(s: Seq<char>, i: int) -> Option<(XmlNodeV, int)>
    decreases s.len() - i, 0int,
{
    if !(0 <= i < s.len() && s[i] == '<') {
        None
    } else {
        let j = name_end(s, i + 1);
        let raw = s.subrange(i + 1, j);
        if raw.len() == 0 {
            None
        } else {
            match skip_attrs(s, j) {
                None => None,
                Some((self_closing, k)) => {
                    if self_closing {
                        Some(
                            (
                                XmlNodeV {
                                    name: local_name(raw),
                                    children: Seq::empty(),
                                    text: Seq::empty(),
                                },
                                k,
                            ),
                        )
                    } else if k > i && k <= s.len() {
                        match parse_content(s, k) {
                            None => None,
                            Some((children, text, e)) => {
                                // e stands at "</"; read and check the end tag
                                let j2 = name_end(s, e + 2);
                                let raw2 = s.subrange(e + 2, j2);
                                let g = skip_space(s, j2);
                                if local_name(raw2) == local_name(raw) && g < s.len() && s[g] == '>'
                                {
                                    Some(
                                        (
                                            XmlNodeV {
                                                name: local_name(raw),
                                                children,
                                                text,
                                            },
                                            g + 1,
                                        ),
                                    )
                                } else {
                                    None
                                }
                            },
                        }
                    } else {
                        None
                    }
                },
            }
        }
    }
}

/// The content of an element starting at `i`: character data, child
/// elements, comments and processing instructions, up to the "</" of the
/// enclosing end tag. Yields the children, the concatenated text, and the
/// position of the "</".
pub open spec fn parse_content(s: Seq<char>, i: int) -> Option<(Seq<XmlNodeV>, Seq<char>, int)>
    decreases s.len() - i, 1int,
{
    match scan_text(s, i) {
        None => None,
        Some((t1, j)) => {
            if j >= s.len() {
                None
            } else if j + 1 < s.len() && s[j + 1] == '/' {
                if j >= i {
                    Some((Seq::empty(), t1, j))
                } else {
                    None
                }
            } else if j + 1 < s.len() && s[j + 1] == '?' {
                let k = find_char(s, j + 1, '>');
                if k < s.len() && k + 1 > i {
                    match parse_content(s, k + 1) {
                        None => None,
                        Some((cs, t2, e)) => Some((cs, t1 + t2, e)),
                    }
                } else {
                    None
                }
            } else if j + 1 < s.len() && s[j + 1] == '!' {
                if lit_at(s, j + 1, seq!['!', '-', '-']) {
                    let k = find_comment_end(s, j + 4);
                    if k + 3 <= s.len() && k + 3 > i {
                        match parse_content(s, k + 3) {
                            None => None,
                            Some((cs, t2, e)) => Some((cs, t1 + t2, e)),
                        }
                    } else {
                        None
                    }
                } else {
                    None
                }
            } else {
                if j >= i {
                    match parse_element(s, j) {
                        None => None,
                        Some((child, k)) => {
                            if k > i && k <= s.len() {
                                match parse_content(s, k) {
                                    None => None,
                                    Some((cs, t2, e)) => Some((seq![child] + cs, t1 + t2, e)),
                                }
                            } else {
                                None
                            }
                        },
                    }
                } else {
                    None
                }
            }
        },
    }
}

/// The root element of a document: an optional byte-order mark, then
/// whitespace, processing instructions and comments, then the element.
/// Anything after the root element is ignored.
pub open spec fn parse_document_at(s: Seq<char>, i: int) -> Option<XmlNodeV>
    decreases s.len() - i,
{
    let j = skip_space(s, i);
    if j >= s.len() {
        None
    } else if j + 1 < s.len() && s[j] == '<' && s[j + 1] == '?' {
        let k = find_char(s, j + 1, '>');
        if k < s.len() && k + 1 > i && k + 1 <= s.len() {
            parse_document_at(s, k + 1)
        } else {
            None
        }
    } else if j + 1 < s.len() && s[j] == '<' && lit_at(s, j + 1, seq!['!', '-', '-']) {
        let k = find_comment_end(s, j + 4);
        if k + 3 <= s.len() && k + 3 > i {
            parse_document_at(s, k + 3)
        } else {
            None
        }
    } else {
        match parse_element(s, j) {
            None => None,
            Some((node, _)) => Some(node),
        }
    }
}

/// A whole document.
pub open spec fn parse_document(s: Seq<char>) -> Option<XmlNodeV> {
    if s.len() > 0 && s[0] == '\u{feff}' {
        parse_document_at(s, 1)
    } else {
        parse_document_at(s, 0)
    }
}

/// The first position at or after `i` whose character ends an element name.
fn name_end_x(v: &Vec<char>, i: usize) -> (r: usize)
    requires
        i <= v@.len(),
    ensures
        r == name_end(v@, i as int),
        i <= r <= v@.len(),
{
    let mut j = i;
    while j < v.len() && !(v[j] == ' ' || v[j] == '\t' || v[j] == '\r' || v[j] == '\n' || v[j]
        == '/' || v[j] == '>')
        invariant
            i <= j <= v@.len(),
            name_end(v@, i as int) == name_end(v@, j as int),
        decreases v@.len() - j,
    {
        j += 1;
    }
    j
}

/// The first position at or after `i` holding `c`, or the length.
fn find_char_x(v: &Vec<char>, i: usize, c: char) -> (r: usize)
    requires
        i <= v@.len(),
    ensures
        r == find_char(v@, i as int, c),
        i <= r <= v@.len(),
{
    let mut j = i;
    while j < v.len() && v[j] != c
        invariant
            i <= j <= v@.len(),
            find_char(v@, i as int, c) == find_char(v@, j as int, c),
        decreases v@.len() - j,
    {
        j += 1;
    }
    j
}

/// The first position at or after `i` with a non-whitespace character.
fn skip_space_x(v: &Vec<char>, i: usize) -> (r: usize)
    requires
        i <= v@.len(),
    ensures
        r == skip_space(v@, i as int),
        i <= r <= v@.len(),
{
    let mut j = i;
    while j < v.len() && (v[j] == ' ' || v[j] == '\t' || v[j] == '\r' || v[j] == '\n')
        invariant
            i <= j <= v@.len(),
            skip_space(v@, i as int) == skip_space(v@, j as int),
        decreases v@.len() - j,
    {
        j += 1;
    }
    j
}

/// The first position at or after `i` holding '<' or '&', or the length.
fn text_stop_x(v: &Vec<char>, i: usize) -> (r: usize)
    requires
        i <= v@.len(),
    ensures
        r == text_stop(v@, i as int),
        i <= r <= v@.len(),
        r < v@.len() ==> (v@[r as int] == '<' || v@[r as int] == '&'),
{
    let mut j = i;
    while j < v.len() && v[j] != '<' && v[j] != '&'
        invariant
            i <= j <= v@.len(),
            text_stop(v@, i as int) == text_stop(v@, j as int),
        decreases v@.len() - j,
    {
        j += 1;
    }
    j
}

/// Whether "-->" stands at position `i`.
fn comment_end_at(v: &Vec<char>, i: usize) -> (r: bool)
    requires
        i <= v@.len(),
    ensures
        r == lit_at(v@, i as int, seq!['-', '-', '>']),
{
    if i < v.len() && v.len() - i >= 3 && v[i] == '-' && v[i + 1] == '-' && v[i + 2] == '>' {
        proof {
            assert(v@.subrange(i as int, i + 3) =~= seq!['-', '-', '>']);
        }
        true
    } else {
        proof {
            if i + 3 <= v@.len() {
                let l: Seq<char> = seq!['-', '-', '>'];
                if v@.subrange(i as int, i + 3) == l {
                    assert(v@.subrange(i as int, i + 3)[0] == v@[i as int]);
                    assert(v@.subrange(i as int, i + 3)[1] == v@[i + 1]);
                    assert(v@.subrange(i as int, i + 3)[2] == v@[i + 2]);
                }
            }
        }
        false
    }
}

/// The first position at or after `i` where "-->" stands, or the length.
fn find_comment_end_x(v: &Vec<char>, i: usize) -> (r: usize)
    requires
        i <= v@.len(),
    ensures
        r == find_comment_end(v@, i as int),
        i <= r <= v@.len(),
{
    let mut j = i;
    loop
        invariant
            i <= j <= v@.len(),
            find_comment_end(v@, i as int) == find_comment_end(v@, j as int),
        ensures
            find_comment_end(v@, i as int) == j,
            i <= j <= v@.len(),
        decreases v@.len() - j,
    {
        if j >= v.len() {
            break;
        }
        if comment_end_at(v, j) {
            break;
        }
        j += 1;
    }
    j
}

/// The characters of `v` from `a` to `b`.
fn vec_subrange(v: &Vec<char>, a: usize, b: usize) -> (r: Vec<char>)
    requires
        a <= b <= v@.len(),
    ensures
        r@ == v@.subrange(a as int, b as int),
{
    let mut r: Vec<char> = Vec::new();
    let mut j = a;
    while j < b
        invariant
            a <= j <= b <= v@.len(),
            r@ == v@.subrange(a as int, j as int),
        decreases b - j,
    {
        r.push(v[j]);
        j += 1;
        proof {
            assert(r@ =~= v@.subrange(a as int, j as int));
        }
    }
    r
}

/// The local part of a possibly prefixed name.
fn local_name_x(n: &Vec<char>) -> (r: Vec<char>)
    ensures
        r@ == local_name(n@),
{
    let k = find_char_x(n, 0, ':');
    if k < n.len() {
        vec_subrange(n, k + 1, n.len())
    } else {
        let r = vec_subrange(n, 0, n.len());
        proof {
            assert(n@.subrange(0, n@.len() as int) =~= n@);
        }
        r
    }
}

proof fn lemma_no_entity(s: Seq<char>, j: int)
    requires
        0 <= j < s.len(),
        s[j] == '&',
        !(j + 4 <= s.len() && s[j + 1] == 'l' && s[j + 2] == 't' && s[j + 3] == ';'),
        !(j + 4 <= s.len() && s[j + 1] == 'g' && s[j + 2] == 't' && s[j + 3] == ';'),
        !(j + 5 <= s.len() && s[j + 1] == 'a' && s[j + 2] == 'm' && s[j + 3] == 'p' && s[j + 4]
            == ';'),
        !(j + 6 <= s.len() && s[j + 1] == 'q' && s[j + 2] == 'u' && s[j + 3] == 'o' && s[j + 4]
            == 't' && s[j + 5] == ';'),
        !(j + 6 <= s.len() && s[j + 1] == 'a' && s[j + 2] == 'p' && s[j + 3] == 'o' && s[j + 4]
            == 's' && s[j + 5] == ';'),
    ensures
        !lit_at(s, j, seq!['&', 'l', 't', ';']),
        !lit_at(s, j, seq!['&', 'g', 't', ';']),
        !lit_at(s, j, seq!['&', 'a', 'm', 'p', ';']),
        !lit_at(s, j, seq!['&', 'q', 'u', 'o', 't', ';']),
        !lit_at(s, j, seq!['&', 'a', 'p', 'o', 's', ';']),
{
    if lit_at(s, j, seq!['&', 'l', 't', ';']) {
        assert(s.subrange(j, j + 4)[1] == s[j + 1]);
        assert(s.subrange(j, j + 4)[2] == s[j + 2]);
        assert(s.subrange(j, j + 4)[3] == s[j + 3]);
    }
    if lit_at(s, j, seq!['&', 'g', 't', ';']) {
        assert(s.subrange(j, j + 4)[1] == s[j + 1]);
        assert(s.subrange(j, j + 4)[2] == s[j + 2]);
        assert(s.subrange(j, j + 4)[3] == s[j + 3]);
    }
    if lit_at(s, j, seq!['&', 'a', 'm', 'p', ';']) {
        assert(s.subrange(j, j + 5)[1] == s[j + 1]);
        assert(s.subrange(j, j + 5)[2] == s[j + 2]);
        assert(s.subrange(j, j + 5)[3] == s[j + 3]);
        assert(s.subrange(j, j + 5)[4] == s[j + 4]);
    }
    if lit_at(s, j, seq!['&', 'q', 'u', 'o', 't', ';']) {
        assert(s.subrange(j, j + 6)[1] == s[j + 1]);
        assert(s.subrange(j, j + 6)[2] == s[j + 2]);
        assert(s.subrange(j, j + 6)[3] == s[j + 3]);
        assert(s.subrange(j, j + 6)[4] == s[j + 4]);
        assert(s.subrange(j, j + 6)[5] == s[j + 5]);
    }
    if lit_at(s, j, seq!['&', 'a', 'p', 'o', 's', ';']) {
        assert(s.subrange(j, j + 6)[1] == s[j + 1]);
        assert(s.subrange(j, j + 6)[2] == s[j + 2]);
        assert(s.subrange(j, j + 6)[3] == s[j + 3]);
        assert(s.subrange(j, j + 6)[4] == s[j + 4]);
        assert(s.subrange(j, j + 6)[5] == s[j + 5]);
    }
}

/// Character data starting at `i`, entities resolved, up to the next '<'.
fn scan_text_x(v: &Vec<char>, i: usize) -> (r: Option<(Vec<char>, usize)>)
    requires
        i <= v@.len(),
    ensures
        r is Some <==> scan_text(v@, i as int) is Some,
        r is Some ==> r->Some_0.0@ == scan_text(v@, i as int)->Some_0.0 && r->Some_0.1 as int
            == scan_text(v@, i as int)->Some_0.1 && i <= r->Some_0.1 <= v@.len(),
    decreases v@.len() - i,
{
    let j = text_stop_x(v, i);
    let mut seg = vec_subrange(v, i, j);
    if j >= v.len() || v[j] == '<' {
        return Some((seg, j));
    }
    let (e, k): (char, usize) = if v.len() - j >= 4 && v[j + 1] == 'l' && v[j + 2] == 't' && v[j
        + 3] == ';' {
        proof {
            assert(v@.subrange(j as int, j + 4) =~= seq!['&', 'l', 't', ';']);
        }
        ('<', j + 4)
    } else if v.len() - j >= 4 && v[j + 1] == 'g' && v[j + 2] == 't' && v[j + 3] == ';' {
        proof {
            assert(v@.subrange(j as int, j + 4) =~= seq!['&', 'g', 't', ';']);
        }
        ('>', j + 4)
    } else if v.len() - j >= 5 && v[j + 1] == 'a' && v[j + 2] == 'm' && v[j + 3] == 'p' && v[j + 4]
        == ';' {
        proof {
            assert(v@.subrange(j as int, j + 5) =~= seq!['&', 'a', 'm', 'p', ';']);
        }
        ('&', j + 5)
    } else if v.len() - j >= 6 && v[j + 1] == 'q' && v[j + 2] == 'u' && v[j + 3] == 'o' && v[j + 4]
        == 't' && v[j + 5] == ';' {
        proof {
            assert(v@.subrange(j as int, j + 6) =~= seq!['&', 'q', 'u', 'o', 't', ';']);
        }
        ('"', j + 6)
    } else if v.len() - j >= 6 && v[j + 1] == 'a' && v[j + 2] == 'p' && v[j + 3] == 'o' && v[j + 4]
        == 's' && v[j + 5] == ';' {
        proof {
            assert(v@.subrange(j as int, j + 6) =~= seq!['&', 'a', 'p', 'o', 's', ';']);
        }
        ('\'', j + 6)
    } else {
        proof {
            lemma_no_entity(v@, j as int);
        }
        return None;
    };
    match scan_text_x(v, k) {
        Some((mut rest, end)) => {
            seg.push(e);
            seg.append(&mut rest);
            Some((seg, end))
        },
        None => None,
    }
}

/// Skips the attribute region of a start tag.
fn skip_attrs_x(v: &Vec<char>, i: usize) -> (r: Option<(bool, usize)>)
    requires
        i <= v@.len(),
    ensures
        r is Some <==> skip_attrs(v@, i as int) is Some,
        r is Some ==> r->Some_0.0 == skip_attrs(v@, i as int)->Some_0.0 && r->Some_0.1 as int
            == skip_attrs(v@, i as int)->Some_0.1 && i < r->Some_0.1 <= v@.len(),
    decreases v@.len() - i,
{
    let mut j = i;
    loop
        invariant
            i <= j <= v@.len(),
            skip_attrs(v@, i as int) == skip_attrs(v@, j as int),
        ensures
            skip_attrs(v@, i as int) == skip_attrs(v@, j as int),
            i <= j <= v@.len(),
            j < v@.len() ==> (v@[j as int] == '>' || v@[j as int] == '/' || skip_attrs(
                v@,
                j as int,
            ) is None),
        decreases v@.len() - j,
    {
        if j >= v.len() {
            break;
        }
        let c = v[j];
        if c == '>' || c == '/' {
            break;
        }
        if c == '"' || c == '\'' {
            let q = find_char_x(v, j + 1, c);
            if q >= v.len() {
                break;
            }
            j = q + 1;
        } else {
            j += 1;
        }
    }
    if j >= v.len() {
        return None;
    }
    let c = v[j];
    if c == '>' {
        Some((false, j + 1))
    } else if c == '/' {
        if j + 1 < v.len() && v[j + 1] == '>' {
            Some((true, j + 2))
        } else {
            None
        }
    } else {
        None
    }
}

/// Whether two character lists hold the same characters.
fn vec_chars_eq(a: &Vec<char>, b: &Vec<char>) -> (r: bool)
    ensures
        r == (a@ == b@),
{
    if a.len() != b.len() {
        proof {
            assert(a@ != b@);
        }
        return false;
    }
    let mut i: usize = 0;
    while i < a.len()
        invariant
            0 <= i <= a@.len(),
            a@.len() == b@.len(),
            forall|k: int| 0 <= k < i ==> a@[k] == b@[k],
        decreases a@.len() - i,
    {
        if a[i] != b[i] {
            return false;
        }
        i += 1;
    }
    proof {
        assert(a@ =~= b@);
    }
    true
}

proof fn lemma_nodes_view_insert_front(s: Seq<XmlNode>, tailv: Seq<XmlNodeV>, headv: XmlNodeV)
    requires
        s.len() > 0,
        nodes_view(s.drop_first()) == tailv,
        node_view(s[0]) == headv,
    ensures
        nodes_view(s) == seq![headv] + tailv,
    decreases s.len(),
{
    if s.len() == 1 {
        assert(s.drop_last() =~= Seq::<XmlNode>::empty());
        assert(s.drop_first() =~= Seq::<XmlNode>::empty());
        assert(nodes_view(s) =~= seq![headv] + tailv);
    } else {
        let p = s.drop_last();
        lemma_nodes_view_insert_front(p, nodes_view(p.drop_first()), node_view(p[0]));
        assert(p.drop_first() =~= s.drop_first().drop_last());
        assert(p[0] == s[0]);
        assert(s.drop_first().last() == s.last());
        assert(nodes_view(s) =~= seq![headv] + tailv);
    }
}

/// One element starting at `i`.
fn parse_element_x(v: &Vec<char>, i: usize) -> (r: Option<(XmlNode, usize)>)
    requires
        i <= v@.len(),
    ensures
        r is Some <==> parse_element(v@, i as int) is Some,
        r is Some ==> node_view(r->Some_0.0) == parse_element(v@, i as int)->Some_0.0
            && r->Some_0.1 as int == parse_element(v@, i as int)->Some_0.1 && i < r->Some_0.1
            <= v@.len(),
    decreases v@.len() - i, 0int,
{
    if !(i < v.len() && v[i] == '<') {
        return None;
    }
    let j = name_end_x(v, i + 1);
    if j == i + 1 {
        return None;
    }
    let raw = vec_subrange(v, i + 1, j);
    match skip_attrs_x(v, j) {
        None => None,
        Some((self_closing, k)) => {
            if self_closing {
                let node = XmlNode {
                    name: local_name_x(&raw),
                    children: Vec::new(),
                    text: Vec::new(),
                };
                Some((node, k))
            } else {
                match parse_content_x(v, k) {
                    None => None,
                    Some((children, text, e)) => {
                        let j2 = name_end_x(v, e + 2);
                        let raw2 = vec_subrange(v, e + 2, j2);
                        let g = skip_space_x(v, j2);
                        let l1 = local_name_x(&raw2);
                        let l2 = local_name_x(&raw);
                        if vec_chars_eq(&l1, &l2) && g < v.len() && v[g] == '>' {
                            let node = XmlNode { name: local_name_x(&raw), children, text };
                            Some((node, g + 1))
                        } else {
                            None
                        }
                    },
                }
            }
        },
    }
}

/// The content of an element: text, children, comments and processing
/// instructions, up to the enclosing "</".
fn parse_content_x(v: &Vec<char>, i: usize) -> (r: Option<(Vec<XmlNode>, Vec<char>, usize)>)
    requires
        i <= v@.len(),
    ensures
        r is Some <==> parse_content(v@, i as int) is Some,
        r is Some ==> nodes_view(r->Some_0.0@) == parse_content(v@, i as int)->Some_0.0
            && r->Some_0.1@ == parse_content(v@, i as int)->Some_0.1 && r->Some_0.2 as int
            == parse_content(v@, i as int)->Some_0.2 && i <= r->Some_0.2 && r->Some_0.2 + 2
            <= v@.len(),
    decreases v@.len() - i, 1int,
{
    match scan_text_x(v, i) {
        None => None,
        Some((t1, j)) => {
            if j >= v.len() {
                None
            } else if j + 1 < v.len() && v[j + 1] == '/' {
                Some((Vec::new(), t1, j))
            } else if j + 1 < v.len() && v[j + 1] == '?' {
                let k = find_char_x(v, j + 1, '>');
                if k < v.len() {
                    match parse_content_x(v, k + 1) {
                        None => None,
                        Some((cs, mut t2, e)) => {
                            let mut t = t1;
                            t.append(&mut t2);
                            Some((cs, t, e))
                        },
                    }
                } else {
                    None
                }
            } else if j + 1 < v.len() && v[j + 1] == '!' {
                if v.len() - j >= 4 && v[j + 2] == '-' && v[j + 3] == '-' {
                    proof {
                        assert(v@.subrange(j + 1, j + 4) =~= seq!['!', '-', '-']);
                    }
                    let k = find_comment_end_x(v, j + 4);
                    if v.len() - k >= 3 {
                        match parse_content_x(v, k + 3) {
                            None => None,
                            Some((cs, mut t2, e)) => {
                                let mut t = t1;
                                t.append(&mut t2);
                                Some((cs, t, e))
                            },
                        }
                    } else {
                        None
                    }
                } else {
                    proof {
                        if lit_at(v@, j + 1, seq!['!', '-', '-']) {
                            assert(v@.subrange(j + 1, j + 4)[1] == v@[j + 2]);
                            assert(v@.subrange(j + 1, j + 4)[2] == v@[j + 3]);
                        }
                    }
                    None
                }
            } else {
                match parse_element_x(v, j) {
                    None => None,
                    Some((child, k)) => {
                        match parse_content_x(v, k) {
                            None => None,
                            Some((cs, mut t2, e)) => {
                                let ghost childv = node_view(child);
                                let ghost csv = cs@;
                                let ghost tailv = nodes_view(cs@);
                                let mut children = cs;
                                children.insert(0, child);
                                let mut t = t1;
                                t.append(&mut t2);
                                proof {
                                    assert(children@.drop_first() =~= csv);
                                    lemma_nodes_view_insert_front(children@, tailv, childv);
                                }
                                Some((children, t, e))
                            },
                        }
                    },
                }
            }
        },
    }
}

/// The root element of a document; anything after it is ignored.
fn parse_document_at_x(v: &Vec<char>, i: usize) -> (r: Option<XmlNode>)
    requires
        i <= v@.len(),
    ensures
        r is Some <==> parse_document_at(v@, i as int) is Some,
        r is Some ==> node_view(r->Some_0) == parse_document_at(v@, i as int)->Some_0,
    decreases v@.len() - i,
{
    let j = skip_space_x(v, i);
    if j >= v.len() {
        None
    } else if j + 1 < v.len() && v[j] == '<' && v[j + 1] == '?' {
        let k = find_char_x(v, j + 1, '>');
        if k < v.len() {
            parse_document_at_x(v, k + 1)
        } else {
            None
        }
    } else if v.len() - j >= 4 && v[j] == '<' && v[j + 1] == '!' && v[j + 2] == '-' && v[j + 3]
        == '-' {
        proof {
            assert(v@.subrange(j + 1, j + 4) =~= seq!['!', '-', '-']);
        }
        let k = find_comment_end_x(v, j + 4);
        if v.len() - k >= 3 {
            parse_document_at_x(v, k + 3)
        } else {
            None
        }
    } else {
        proof {
            if j + 1 < v@.len() && v@[j as int] == '<' && lit_at(v@, j + 1, seq!['!', '-', '-']) {
                assert(v@.subrange(j + 1, j + 4)[0] == v@[j + 1]);
                assert(v@.subrange(j + 1, j + 4)[1] == v@[j + 2]);
                assert(v@.subrange(j + 1, j + 4)[2] == v@[j + 3]);
            }
        }
        match parse_element_x(v, j) {
            None => None,
            Some((node, _)) => Some(node),
        }
    }
}

/// Reads a whole document into its root element.
pub fn parse_xml(v: &Vec<char>) -> (r: Option<XmlNode>)
    ensures
        r is Some <==> parse_document(v@) is Some,
        r is Some ==> node_view(r->Some_0) == parse_document(v@)->Some_0,
{
    if v.len() > 0 && v[0] == '\u{feff}' {
        parse_document_at_x(v, 1)
    } else {
        parse_document_at_x(v, 0)
    }
}

} // verus!
