//! The manifest XML model: a structural document tree, its parser, its
//! re-serialisation, and the extraction of asset records.
//!
//! The dialect is the one the vendor manifests use: an optional prologue of
//! declarations, comments and whitespace, then one root element holding
//! elements and text. Attributes are read past but not kept; comments and
//! processing instructions are discarded.
use vstd::prelude::*;
use crate::asset::{Asset, AssetV, asset_view, assets_view, empty_asset_v};
use crate::errors::AssetFetcherError;
use crate::strutil::{
    chars_eq, chars_subvec, chars_to_string, ends_with_spec, lemma_run_end_at,
    lemma_run_end_bounds, lemma_run_end_props, parse_u64_chars, parse_u64_spec, run_end,
    str_to_chars,
};

verus! {

/// One node of the parsed document: an element with its tag name and
/// children, or a run of text.
#[derive(Debug)]
pub enum XmlNode {
    Element(Vec<char>, Vec<XmlNode>),
    Text(Vec<char>),
}

/// The mathematical shape of a node, over sequences.
pub enum XmlNodeV {
    Element(Seq<char>, Seq<XmlNodeV>),
    Text(Seq<char>),
}

pub open spec fn node_view(n: XmlNode) -> XmlNodeV
    decreases n, 0int,
{
    match n {
        XmlNode::Text(t) => XmlNodeV::Text(t@),
        XmlNode::Element(name, children) => XmlNodeV::Element(name@, nodes_view_from(children, 0)),
    }
}

pub open spec fn nodes_view_from(v: Vec<XmlNode>, i: int) -> Seq<XmlNodeV>
    decreases v, v@.len() - i,
{
    if 0 <= i < v@.len() {
        seq![node_view(v@[i])] + nodes_view_from(v, i + 1)
    } else {
        Seq::empty()
    }
}

/// The views of a sequence of nodes, elementwise.
pub open spec fn nodes_view(s: Seq<XmlNode>) -> Seq<XmlNodeV> {
    Seq::new(s.len(), |k: int| node_view(s[k]))
}

proof fn lemma_nodes_view_from(v: Vec<XmlNode>, i: int)
    requires
        0 <= i <= v@.len(),
    ensures
        nodes_view_from(v, i).len() == v@.len() - i,
        forall|k: int|
            0 <= k < v@.len() - i ==> nodes_view_from(v, i)[k] == node_view(v@[i + k]),
    decreases v@.len() - i,
{
    if i < v@.len() {
        lemma_nodes_view_from(v, i + 1);
    }
}

/// An element node's view is its name and its children's views.
pub proof fn lemma_element_view(name: Vec<char>, children: Vec<XmlNode>)
    ensures
        node_view(XmlNode::Element(name, children)) == XmlNodeV::Element(
            name@,
            nodes_view(children@),
        ),
{
    lemma_nodes_view_from(children, 0);
    assert(nodes_view_from(children, 0) =~= nodes_view(children@));
}

/// XML whitespace.
pub open spec fn is_xml_ws(c: char) -> bool {
    c == ' ' || c == '\t' || c == '\n' || c == '\r'
}

/// A character a tag name may hold in this dialect: anything but
/// whitespace and tag punctuation.
pub open spec fn is_name_char(c: char) -> bool {
    !is_xml_ws(c) && c != '<' && c != '>' && c != '/'
}

pub open spec fn ws_end(s: Seq<char>, i: int) -> int {
    run_end(s, i, |c: char| is_xml_ws(c))
}

pub open spec fn xml_name_end(s: Seq<char>, i: int) -> int {
    run_end(s, i, |c: char| is_name_char(c))
}

pub open spec fn text_run_end(s: Seq<char>, i: int) -> int {
    run_end(s, i, |c: char| c != '<')
}

/// The position after the first `-->` at or after `i`.
pub open spec fn comment_close(s: Seq<char>, i: int) -> Option<int>
    decreases s.len() - i,
    when 0 <= i <= s.len()
{
    if i + 3 > s.len() {
        None
    } else if s[i] == '-' && s[i + 1] == '-' && s[i + 2] == '>' {
        Some(i + 3)
    } else {
        comment_close(s, i + 1)
    }
}


/// The position after the first `?>` at or after `i`.
pub open spec fn pi_close(s: Seq<char>, i: int) -> Option<int>
    decreases s.len() - i,
    when 0 <= i <= s.len()
{
    if i + 2 > s.len() {
        None
    } else if s[i] == '?' && s[i + 1] == '>' {
        Some(i + 2)
    } else {
        pi_close(s, i + 1)
    }
}


/// Where an open tag's attribute section ends: the position after `>` or
/// `/>`, skipping quoted attribute values, and whether the tag closed
/// itself. `quote` holds the quote character while inside a value.
pub open spec fn tag_close(s: Seq<char>, i: int, quote: Option<char>) -> Option<(int, bool)>
    decreases s.len() - i,
    when 0 <= i <= s.len()
{
    if i >= s.len() {
        None
    } else {
        match quote {
            Some(q) => if s[i] == q {
                tag_close(s, i + 1, None)
            } else {
                tag_close(s, i + 1, quote)
            },
            None => if s[i] == '>' {
                Some((i + 1, false))
            } else if s[i] == '/' && i + 1 < s.len() && s[i + 1] == '>' {
                Some((i + 2, true))
            } else if s[i] == '"' {
                tag_close(s, i + 1, Some('"'))
            } else if s[i] == '\'' {
                tag_close(s, i + 1, Some('\''))
            } else {
                tag_close(s, i + 1, None)
            },
        }
    }
}

proof fn lemma_tag_close_bounds(s: Seq<char>, i: int, quote: Option<char>)
    requires
        0 <= i <= s.len(),
    ensures
        tag_close(s, i, quote) matches Some(p) ==> i < p.0 <= s.len(),
    decreases s.len() - i,
{
    if i < s.len() {
        lemma_tag_close_bounds(s, i + 1, None);
        lemma_tag_close_bounds(s, i + 1, quote);
        lemma_tag_close_bounds(s, i + 1, Some('"'));
        lemma_tag_close_bounds(s, i + 1, Some('\''));
    }
}

/// Parses the children of an element from `i` up to a closing tag or the
/// end of input: elements and text runs, comments and processing
/// instructions dropped; fails on malformed markup.
pub open spec fn parse_content_spec(s: Seq<char>, i: int) -> Option<(Seq<XmlNodeV>, int)>
    decreases s.len() - i, 1int,
    when 0 <= i <= s.len()
{
    if i >= s.len() {
        Some((Seq::empty(), i))
    } else if s[i] != '<' {
        let te = text_run_end(s, i);
        if i < te <= s.len() {
            match parse_content_spec(s, te) {
                None => None,
                Some(pair) => Some((seq![XmlNodeV::Text(s.subrange(i, te))] + pair.0, pair.1)),
            }
        } else {
            None
        }
    } else if i + 1 >= s.len() {
        None
    } else if s[i + 1] == '/' {
        Some((Seq::empty(), i))
    } else if s[i + 1] == '!' {
        if i + 4 <= s.len() && s[i + 2] == '-' && s[i + 3] == '-' {
            match comment_close(s, i + 4) {
                None => None,
                Some(j) => if i < j <= s.len() {
                    parse_content_spec(s, j)
                } else {
                    None
                },
            }
        } else {
            None
        }
    } else if s[i + 1] == '?' {
        match pi_close(s, i + 2) {
            None => None,
            Some(j) => if i < j <= s.len() {
                parse_content_spec(s, j)
            } else {
                None
            },
        }
    } else {
        match parse_element_spec(s, i) {
            None => None,
            Some(ep) => if i < ep.1 <= s.len() {
                match parse_content_spec(s, ep.1) {
                    None => None,
                    Some(pair) => Some((seq![ep.0] + pair.0, pair.1)),
                }
            } else {
                None
            },
        }
    }
}

/// Parses one element at `i`: `<name`, attributes, then either `/>` or
/// `>`, children, and a matching `</name>` close tag.
pub open spec fn parse_element_spec(s: Seq<char>, i: int) -> Option<(XmlNodeV, int)>
    decreases s.len() - i, 0int,
    when 0 <= i <= s.len()
{
    if i >= s.len() || s[i] != '<' {
        None
    } else {
        let ne = xml_name_end(s, i + 1);
        if !(i + 1 < ne <= s.len()) {
            None
        } else {
            let name = s.subrange(i + 1, ne);
            match tag_close(s, ne, None) {
                None => None,
                Some(tc) => if tc.1 {
                    Some((XmlNodeV::Element(name, Seq::empty()), tc.0))
                } else if i < tc.0 <= s.len() {
                    match parse_content_spec(s, tc.0) {
                        None => None,
                        Some(pair) => close_tag_spec(s, pair.1, name, pair.0),
                    }
                } else {
                    None
                },
            }
        }
    }
}

/// Accepts `</name [ws] >` at `j` and finishes the element.
pub open spec fn close_tag_spec(
    s: Seq<char>,
    j: int,
    name: Seq<char>,
    children: Seq<XmlNodeV>,
) -> Option<(XmlNodeV, int)> {
    if 0 <= j && j + 2 <= s.len() && s[j] == '<' && s[j + 1] == '/' && j + 2 + name.len()
        <= s.len() && s.subrange(j + 2, j + 2 + name.len()) == name && xml_name_end(s, j + 2)
        == j + 2 + name.len() {
        let w = ws_end(s, j + 2 + name.len());
        if w < s.len() && s[w] == '>' {
            Some((XmlNodeV::Element(name, children), w + 1))
        } else {
            None
        }
    } else {
        None
    }
}

/// Where the root element starts: after leading whitespace, byte-order
/// marks, declarations and comments.
pub open spec fn prologue_end(s: Seq<char>, i: int) -> Option<int>
    decreases s.len() - i,
    when 0 <= i <= s.len()
{
    if i >= s.len() {
        None
    } else if is_xml_ws(s[i]) || s[i] == '\u{feff}' {
        prologue_end(s, i + 1)
    } else if s[i] != '<' {
        None
    } else if i + 1 >= s.len() {
        None
    } else if s[i + 1] == '?' {
        match pi_close(s, i + 2) {
            None => None,
            Some(j) => if i < j <= s.len() {
                prologue_end(s, j)
            } else {
                None
            },
        }
    } else if s[i + 1] == '!' {
        if i + 4 <= s.len() && s[i + 2] == '-' && s[i + 3] == '-' {
            match comment_close(s, i + 4) {
                None => None,
                Some(j) => if i < j <= s.len() {
                    prologue_end(s, j)
                } else {
                    None
                },
            }
        } else {
            None
        }
    } else {
        Some(i)
    }
}

/// Only whitespace may follow the root element.
pub open spec fn epilogue_ws(s: Seq<char>, i: int) -> bool {
    forall|k: int| i <= k < s.len() ==> is_xml_ws(#[trigger] s[k])
}

/// The document's root element, or nothing when the text is not a
/// well-formed document of this dialect.
pub open spec fn parse_document_spec(s: Seq<char>) -> Option<XmlNodeV> {
    match prologue_end(s, 0) {
        None => None,
        Some(i) => if 0 <= i <= s.len() {
            match parse_element_spec(s, i) {
                None => None,
                Some(pair) => if 0 <= pair.1 <= s.len() && epilogue_ws(s, pair.1) {
                    Some(pair.0)
                } else {
                    None
                },
            }
        } else {
            None
        },
    }
}

fn scan_ws(chars: &Vec<char>, i: usize) -> (r: usize)
    requires
        i <= chars@.len(),
    ensures
        r == ws_end(chars@, i as int),
        i <= r <= chars@.len(),
{
    let n: usize = chars.len();
    let mut j: usize = i;
    while j < n
        invariant
            i <= j <= n,
            n == chars@.len(),
            forall|k: int| i <= k < j ==> is_xml_ws(#[trigger] chars@[k]),
        ensures
            i <= j <= n,
            forall|k: int| i <= k < j ==> is_xml_ws(#[trigger] chars@[k]),
            j == n || !is_xml_ws(chars@[j as int]),
        decreases n - j,
    {
        let c: char = chars[j];
        if !(c == ' ' || c == '\t' || c == '\n' || c == '\r') {
            break;
        }
        j = j + 1;
    }
    proof {
        lemma_run_end_at(chars@, i as int, j as int, |c: char| is_xml_ws(c));
    }
    j
}

fn scan_name(chars: &Vec<char>, i: usize) -> (r: usize)
    requires
        i <= chars@.len(),
    ensures
        r == xml_name_end(chars@, i as int),
        i <= r <= chars@.len(),
{
    let n: usize = chars.len();
    let mut j: usize = i;
    while j < n
        invariant
            i <= j <= n,
            n == chars@.len(),
            forall|k: int| i <= k < j ==> is_name_char(#[trigger] chars@[k]),
        ensures
            i <= j <= n,
            forall|k: int| i <= k < j ==> is_name_char(#[trigger] chars@[k]),
            j == n || !is_name_char(chars@[j as int]),
        decreases n - j,
    {
        let c: char = chars[j];
        if c == ' ' || c == '\t' || c == '\n' || c == '\r' || c == '<' || c == '>' || c == '/' {
            break;
        }
        j = j + 1;
    }
    proof {
        lemma_run_end_at(chars@, i as int, j as int, |c: char| is_name_char(c));
    }
    j
}

fn scan_text(chars: &Vec<char>, i: usize) -> (r: usize)
    requires
        i <= chars@.len(),
    ensures
        r == text_run_end(chars@, i as int),
        i <= r <= chars@.len(),
{
    let n: usize = chars.len();
    let mut j: usize = i;
    while j < n
        invariant
            i <= j <= n,
            n == chars@.len(),
            forall|k: int| i <= k < j ==> (#[trigger] chars@[k]) != '<',
        ensures
            i <= j <= n,
            forall|k: int| i <= k < j ==> (#[trigger] chars@[k]) != '<',
            j == n || chars@[j as int] == '<',
        decreases n - j,
    {
        if chars[j] == '<' {
            break;
        }
        j = j + 1;
    }
    proof {
        lemma_run_end_at(chars@, i as int, j as int, |c: char| c != '<');
    }
    j
}

fn skip_comment(chars: &Vec<char>, i: usize) -> (r: Option<usize>)
    requires
        i <= chars@.len(),
    ensures
        match r {
            Some(j) => comment_close(chars@, i as int) == Some(j as int) && i < j
                <= chars@.len(),
            None => comment_close(chars@, i as int) is None,
        },
{
    let n: usize = chars.len();
    let mut j: usize = i;
    while n - j >= 3
        invariant
            i <= j <= n,
            n == chars@.len(),
            comment_close(chars@, i as int) == comment_close(chars@, j as int),
        ensures
            i <= j <= n,
            n == chars@.len(),
            comment_close(chars@, i as int) == comment_close(chars@, j as int),
            n - j >= 3 ==> chars@[j as int] == '-' && chars@[j as int + 1] == '-' && chars@[j
                as int + 2] == '>',
        decreases n - j,
    {
        if chars[j] == '-' && chars[j + 1] == '-' && chars[j + 2] == '>' {
            break;
        }
        proof {
            assert(comment_close(chars@, j as int) == comment_close(chars@, j as int + 1));
        }
        j = j + 1;
    }
    if n - j >= 3 {
        proof {
            assert(comment_close(chars@, j as int) == Some(j as int + 3));
        }
        Some(j + 3)
    } else {
        proof {
            assert(comment_close(chars@, j as int) is None);
        }
        None
    }
}

fn skip_pi(chars: &Vec<char>, i: usize) -> (r: Option<usize>)
    requires
        i <= chars@.len(),
    ensures
        match r {
            Some(j) => pi_close(chars@, i as int) == Some(j as int) && i < j <= chars@.len(),
            None => pi_close(chars@, i as int) is None,
        },
{
    let n: usize = chars.len();
    let mut j: usize = i;
    while n - j >= 2
        invariant
            i <= j <= n,
            n == chars@.len(),
            pi_close(chars@, i as int) == pi_close(chars@, j as int),
        ensures
            i <= j <= n,
            n == chars@.len(),
            pi_close(chars@, i as int) == pi_close(chars@, j as int),
            n - j >= 2 ==> chars@[j as int] == '?' && chars@[j as int + 1] == '>',
        decreases n - j,
    {
        if chars[j] == '?' && chars[j + 1] == '>' {
            break;
        }
        proof {
            assert(pi_close(chars@, j as int) == pi_close(chars@, j as int + 1));
        }
        j = j + 1;
    }
    if n - j >= 2 {
        proof {
            assert(pi_close(chars@, j as int) == Some(j as int + 2));
        }
        Some(j + 2)
    } else {
        proof {
            assert(pi_close(chars@, j as int) is None);
        }
        None
    }
}

fn skip_tag(chars: &Vec<char>, i: usize) -> (r: Option<(usize, bool)>)
    requires
        i <= chars@.len(),
    ensures
        match r {
            Some(p) => tag_close(chars@, i as int, None) == Some((p.0 as int, p.1)) && i < p.0
                <= chars@.len(),
            None => tag_close(chars@, i as int, None) is None,
        },
{
    let n: usize = chars.len();
    let mut j: usize = i;
    let mut quote: Option<char> = None;
    loop
        invariant
            i <= j <= n,
            n == chars@.len(),
            tag_close(chars@, i as int, None) == tag_close(chars@, j as int, quote),
        ensures
            i <= j <= n,
            n == chars@.len(),
            match tag_close(chars@, i as int, None) {
                Some(p) => i < p.0 <= chars@.len(),
                None => true,
            },
            ({
                let res = tag_close(chars@, i as int, None);
                (j == n && res is None) || (j < n && quote is None && chars@[j as int] == '>'
                    && res == Some((j as int + 1, false))) || (j + 1 < n && quote is None
                    && chars@[j as int] == '/' && chars@[j as int + 1] == '>' && res == Some(
                    (j as int + 2, true),
                ))
            }),
        decreases 2 * (n - j) + (if quote is Some { 1int } else { 0int }),
    {
        if j >= n {
            proof {
                assert(tag_close(chars@, j as int, quote) is None);
            }
            break;
        }
        let c: char = chars[j];
        match quote {
            Some(q) => {
                if c == q {
                    quote = None;
                } else {
                }
                j = j + 1;
            },
            None => {
                if c == '>' {
                    proof {
                        assert(tag_close(chars@, j as int, quote) == Some((j as int + 1, false)));
                        lemma_tag_close_bounds(chars@, i as int, None);
                    }
                    break;
                } else if c == '/' && j + 1 < n && chars[j + 1] == '>' {
                    proof {
                        assert(tag_close(chars@, j as int, quote) == Some((j as int + 2, true)));
                        lemma_tag_close_bounds(chars@, i as int, None);
                    }
                    break;
                } else if c == '"' {
                    quote = Some('"');
                    j = j + 1;
                } else if c == '\'' {
                    quote = Some('\'');
                    j = j + 1;
                } else {
                    j = j + 1;
                }
            },
        }
    }
    if j < n {
        let c: char = chars[j];
        if c == '>' {
            Some((j + 1, false))
        } else {
            Some((j + 2, true))
        }
    } else {
        None
    }
}

fn chars_eq_range(v: &Vec<char>, from: usize, to: usize, w: &Vec<char>) -> (r: bool)
    requires
        from <= to <= v@.len(),
        to - from == w@.len(),
    ensures
        r == (v@.subrange(from as int, to as int) == w@),
{
    let mut i: usize = 0;
    while i < to - from
        invariant
            from <= to <= v@.len(),
            to - from == w@.len(),
            i <= to - from,
            forall|k: int| 0 <= k < i ==> v@[from + k] == w@[k],
        decreases to - from - i,
    {
        if v[from + i] != w[i] {
            proof {
                assert(v@.subrange(from as int, to as int)[i as int] == v@[from + i]);
            }
            return false;
        }
        i = i + 1;
    }
    proof {
        assert(v@.subrange(from as int, to as int) =~= w@);
    }
    true
}

fn parse_element_exec(chars: &Vec<char>, i: usize) -> (r: Option<(XmlNode, usize)>)
    requires
        i <= chars@.len(),
    ensures
        match r {
            Some(p) => parse_element_spec(chars@, i as int) == Some((node_view(p.0), p.1 as int))
                && i < p.1 <= chars@.len(),
            None => parse_element_spec(chars@, i as int) is None,
        },
    decreases chars@.len() - i, 0int,
{
    let n: usize = chars.len();
    if i >= n || chars[i] != '<' {
        return None;
    }
    let ne: usize = scan_name(chars, i + 1);
    if ne <= i + 1 {
        return None;
    }
    let name: Vec<char> = chars_subvec(chars, i + 1, ne);
    let tc: (usize, bool) = match skip_tag(chars, ne) {
        Some(tc) => tc,
        None => {
            return None;
        },
    };
    if tc.1 {
        let node = XmlNode::Element(name, Vec::new());
        proof {
            match &node {
                XmlNode::Element(nm, cs) => {
                    lemma_element_view(*nm, *cs);
                    assert(nodes_view(cs@) =~= Seq::<XmlNodeV>::empty());
                },
                _ => {},
            }
        }
        return Some((node, tc.0));
    }
    let pair: (Vec<XmlNode>, usize) = match parse_content_exec(chars, tc.0) {
        Some(p) => p,
        None => {
            return None;
        },
    };
    let (children, j): (Vec<XmlNode>, usize) = pair;
    if n - j < 2 || chars[j] != '<' || chars[j + 1] != '/' {
        return None;
    }
    let ce: usize = scan_name(chars, j + 2);
    if ce - (j + 2) != name.len() {
        return None;
    }
    if !chars_eq_range(chars, j + 2, ce, &name) {
        return None;
    }
    let w: usize = scan_ws(chars, ce);
    if w >= n || chars[w] != '>' {
        return None;
    }
    let node = XmlNode::Element(name, children);
    proof {
        match &node {
            XmlNode::Element(nm, cs) => {
                lemma_element_view(*nm, *cs);
            },
            _ => {},
        }
    }
    Some((node, w + 1))
}

fn parse_content_exec(chars: &Vec<char>, i: usize) -> (r: Option<(Vec<XmlNode>, usize)>)
    requires
        i <= chars@.len(),
    ensures
        match r {
            Some(p) => parse_content_spec(chars@, i as int) == Some(
                (nodes_view(p.0@), p.1 as int),
            ) && i <= p.1 <= chars@.len(),
            None => parse_content_spec(chars@, i as int) is None,
        },
    decreases chars@.len() - i, 1int,
{
    let n: usize = chars.len();
    if i >= n {
        let nodes: Vec<XmlNode> = Vec::new();
        proof {
            assert(nodes_view(nodes@) =~= Seq::<XmlNodeV>::empty());
        }
        return Some((nodes, i));
    }
    if chars[i] != '<' {
        let te: usize = scan_text(chars, i);
        proof {
            assert(text_run_end(chars@, i as int) == run_end(
                chars@,
                i as int + 1,
                |c: char| c != '<',
            ));
            lemma_run_end_bounds(chars@, i as int + 1, |c: char| c != '<');
        }
        let text: Vec<char> = chars_subvec(chars, i, te);
        let pair: (Vec<XmlNode>, usize) = match parse_content_exec(chars, te) {
            Some(p) => p,
            None => {
                return None;
            },
        };
        let (mut nodes, j): (Vec<XmlNode>, usize) = pair;
        let ghost rest_views = nodes_view(nodes@);
        nodes.insert(0, XmlNode::Text(text));
        proof {
            assert(nodes_view(nodes@) =~= seq![
                XmlNodeV::Text(chars@.subrange(i as int, te as int)),
            ] + rest_views);
        }
        return Some((nodes, j));
    }
    if n - i < 2 {
        return None;
    }
    let c1: char = chars[i + 1];
    if c1 == '/' {
        let nodes: Vec<XmlNode> = Vec::new();
        proof {
            assert(nodes_view(nodes@) =~= Seq::<XmlNodeV>::empty());
        }
        return Some((nodes, i));
    }
    if c1 == '!' {
        if n - i >= 4 && chars[i + 2] == '-' && chars[i + 3] == '-' {
            let j: usize = match skip_comment(chars, i + 4) {
                Some(j) => j,
                None => {
                    return None;
                },
            };
            let r = parse_content_exec(chars, j);
            proof {
                assert(parse_content_spec(chars@, i as int) == parse_content_spec(
                    chars@,
                    j as int,
                ));
            }
            return r;
        } else {
            return None;
        }
    }
    if c1 == '?' {
        let j: usize = match skip_pi(chars, i + 2) {
            Some(j) => j,
            None => {
                return None;
            },
        };
        let r = parse_content_exec(chars, j);
        proof {
            assert(parse_content_spec(chars@, i as int) == parse_content_spec(chars@, j as int));
        }
        return r;
    }
    let ep: (XmlNode, usize) = match parse_element_exec(chars, i) {
        Some(p) => p,
        None => {
            return None;
        },
    };
    let (node, j): (XmlNode, usize) = ep;
    let pair: (Vec<XmlNode>, usize) = match parse_content_exec(chars, j) {
        Some(p) => p,
        None => {
            return None;
        },
    };
    let (mut nodes, k): (Vec<XmlNode>, usize) = pair;
    let ghost rest_views = nodes_view(nodes@);
    let ghost node_v = node_view(node);
    nodes.insert(0, node);
    proof {
        assert(nodes_view(nodes@) =~= seq![node_v] + rest_views);
    }
    Some((nodes, k))
}

/// Parses a whole document and returns its root element. Fails with
/// `XMLParser` on anything outside the dialect.
pub fn parse_document(text: &str) -> (r: Result<XmlNode, AssetFetcherError>)
    ensures
        match r {
            Ok(root) => parse_document_spec(text@) == Some(node_view(root)),
            Err(e) => e == AssetFetcherError::XMLParser && parse_document_spec(text@) is None,
        },
{
    let chars: Vec<char> = str_to_chars(text);
    let n: usize = chars.len();
    let mut i: usize = 0;
    loop
        invariant
            i <= n,
            n == text@.len(),
            chars@ == text@,
            prologue_end(text@, 0) == prologue_end(text@, i as int),
        ensures
            i < n,
            n == text@.len(),
            chars@ == text@,
            prologue_end(text@, 0) == Some(i as int),
        decreases n - i,
    {
        if i >= n {
            proof {
                assert(prologue_end(text@, i as int) is None);
            }
            return Err(AssetFetcherError::XMLParser);
        }
        let c: char = chars[i];
        if c == ' ' || c == '\t' || c == '\n' || c == '\r' || c == '\u{feff}' {
            proof {
                assert(prologue_end(text@, i as int) == prologue_end(text@, i as int + 1));
            }
            i = i + 1;
            continue;
        }
        if c != '<' {
            return Err(AssetFetcherError::XMLParser);
        }
        if n - i < 2 {
            return Err(AssetFetcherError::XMLParser);
        }
        let c1: char = chars[i + 1];
        if c1 == '?' {
            let j: usize = match skip_pi(&chars, i + 2) {
                Some(j) => j,
                None => {
                    return Err(AssetFetcherError::XMLParser);
                },
            };
            proof {
                assert(prologue_end(text@, i as int) == prologue_end(text@, j as int));
            }
            i = j;
            continue;
        }
        if c1 == '!' {
            if n - i >= 4 && chars[i + 2] == '-' && chars[i + 3] == '-' {
                let j: usize = match skip_comment(&chars, i + 4) {
                    Some(j) => j,
                    None => {
                        return Err(AssetFetcherError::XMLParser);
                    },
                };
                proof {
                    assert(prologue_end(text@, i as int) == prologue_end(text@, j as int));
                }
                i = j;
                continue;
            } else {
                return Err(AssetFetcherError::XMLParser);
            }
        }
        proof {
            assert(prologue_end(text@, i as int) == Some(i as int));
        }
        break;
    }
    let ep: (XmlNode, usize) = match parse_element_exec(&chars, i) {
        Some(p) => p,
        None => {
            return Err(AssetFetcherError::XMLParser);
        },
    };
    let (root, j): (XmlNode, usize) = ep;
    let w: usize = scan_ws(&chars, j);
    proof {
        lemma_run_end_props(text@, j as int, |c: char| is_xml_ws(c));
    }
    if w < n {
        proof {
            assert(!is_xml_ws(text@[w as int]));
            assert(!epilogue_ws(text@, j as int)) by {
                if epilogue_ws(text@, j as int) {
                    assert(is_xml_ws(text@[w as int]));
                }
            }
        }
        return Err(AssetFetcherError::XMLParser);
    }
    proof {
        assert(epilogue_ws(text@, j as int));
    }
    Ok(root)
}


/// The structural re-serialisation of a node: open tag, children, close
/// tag; text verbatim. Attributes, comments and instructions are gone.
pub open spec fn serialize_nodev(n: XmlNodeV) -> Seq<char>
    decreases n, 0int,
{
    match n {
        XmlNodeV::Text(t) => t,
        XmlNodeV::Element(name, children) => seq!['<'] + name + seq!['>'] + serialize_nodesv(
            children,
            0,
        ) + seq!['<', '/'] + name + seq!['>'],
    }
}

pub open spec fn serialize_nodesv(ns: Seq<XmlNodeV>, i: int) -> Seq<char>
    decreases ns, ns.len() - i,
{
    if 0 <= i < ns.len() {
        serialize_nodev(ns[i]) + serialize_nodesv(ns, i + 1)
    } else {
        Seq::empty()
    }
}

fn children_to_string(children: &Vec<XmlNode>) -> (s: String)
    ensures
        s@ == serialize_nodesv(nodes_view(children@), 0),
    decreases children, 1int,
{
    let ghost vs = nodes_view(children@);
    let mut s: String = String::new();
    let mut k: usize = 0;
    while k < children.len()
        invariant
            k <= children@.len(),
            vs == nodes_view(children@),
            serialize_nodesv(vs, 0) == s@ + serialize_nodesv(vs, k as int),
        decreases children@.len() - k,
    {
        let part: String = node_to_string(&children[k]);
        proof {
            assert(vs[k as int] == node_view(children@[k as int]));
            assert(serialize_nodesv(vs, k as int) == serialize_nodev(vs[k as int])
                + serialize_nodesv(vs, k as int + 1));
            assert((s@ + part@) + serialize_nodesv(vs, k as int + 1) =~= s@ + (part@
                + serialize_nodesv(vs, k as int + 1)));
        }
        s.append(part.as_str());
        k = k + 1;
    }
    proof {
        assert(serialize_nodesv(vs, children@.len() as int) =~= Seq::<char>::empty());
        assert(s@ + Seq::<char>::empty() =~= s@);
    }
    s
}

/// Writes one node back as text, structurally.
pub fn node_to_string(node: &XmlNode) -> (s: String)
    ensures
        s@ == serialize_nodev(node_view(*node)),
    decreases node, 0int,
{
    match node {
        XmlNode::Text(t) => chars_to_string(t),
        XmlNode::Element(name, children) => {
            proof {
                reveal_strlit("<");
                reveal_strlit(">");
                reveal_strlit("</");
                lemma_element_view(*name, *children);
            }
            let mut s: String = String::new();
            s.append("<");
            s.append(chars_to_string(name).as_str());
            s.append(">");
            s.append(children_to_string(children).as_str());
            s.append("</");
            s.append(chars_to_string(name).as_str());
            s.append(">");
            proof {
                assert(nodes_view(children@) == serialize_arg_children(node_view(*node)));
                assert(s@ =~= serialize_nodev(node_view(*node)));
            }
            s
        },
    }
}

/// The children a node's serialisation walks: its own, for an element.
pub open spec fn serialize_arg_children(n: XmlNodeV) -> Seq<XmlNodeV> {
    match n {
        XmlNodeV::Element(_, children) => children,
        XmlNodeV::Text(_) => Seq::empty(),
    }
}

pub open spec fn tag_table_list() -> Seq<char> {
    seq!['_', 'T', 'a', 'b', 'l', 'e', 'L', 'i', 's', 't']
}

pub open spec fn tag_about() -> Seq<char> {
    seq!['A', 'b', 'o', 'u', 't']
}

pub open spec fn sanitize_header() -> Seq<char> {
    "<?xml version=\"1.0\" ?>\n<LatestFileList>\n"@
}

pub open spec fn sanitize_footer() -> Seq<char> {
    "</LatestFileList>"@
}

/// The sanitised body: each top-level element child not named
/// `_TableList` or `About`, re-serialised and followed by a newline.
pub open spec fn sanitize_children_spec(ns: Seq<XmlNodeV>, i: int) -> Seq<char>
    decreases ns.len() - i,
    when 0 <= i <= ns.len()
{
    if i >= ns.len() {
        Seq::empty()
    } else {
        let rest = sanitize_children_spec(ns, i + 1);
        match ns[i] {
            XmlNodeV::Element(nm, _) => if nm != tag_table_list() && nm != tag_about() {
                serialize_nodev(ns[i]) + seq!['\n'] + rest
            } else {
                rest
            },
            XmlNodeV::Text(_) => rest,
        }
    }
}

/// What `sanitize_content` writes for a parsed document.
pub open spec fn sanitize_spec(root: XmlNodeV) -> Seq<char> {
    match root {
        XmlNodeV::Element(_, children) => sanitize_header() + sanitize_children_spec(children, 0)
            + sanitize_footer(),
        XmlNodeV::Text(_) => sanitize_header() + sanitize_footer(),
    }
}

fn tag_table_list_vec() -> (r: Vec<char>)
    ensures
        r@ == tag_table_list(),
{
    let r: Vec<char> = vec!['_', 'T', 'a', 'b', 'l', 'e', 'L', 'i', 's', 't'];
    proof {
        assert(r@ =~= tag_table_list());
    }
    r
}

fn tag_about_vec() -> (r: Vec<char>)
    ensures
        r@ == tag_about(),
{
    let r: Vec<char> = vec!['A', 'b', 'o', 'u', 't'];
    proof {
        assert(r@ =~= tag_about());
    }
    r
}

/// Parses the vendor XML and re-serialises it rooted at
/// `<LatestFileList>`, keeping only top-level children whose tag is
/// neither `_TableList` nor `About`; comments, instructions and
/// attributes are dropped, text is copied verbatim.
pub fn sanitize_content(text: &str) -> (r: Result<String, AssetFetcherError>)
    ensures
        match r {
            Ok(out) => parse_document_spec(text@) matches Some(root) && out@ == sanitize_spec(
                root,
            ),
            Err(e) => e == AssetFetcherError::XMLParser && parse_document_spec(text@) is None,
        },
{
    let root: XmlNode = match parse_document(text) {
        Ok(root) => root,
        Err(e) => {
            return Err(e);
        },
    };
    let table_tag: Vec<char> = tag_table_list_vec();
    let about_tag: Vec<char> = tag_about_vec();
    let ghost root_v = node_view(root);
    match &root {
        XmlNode::Text(_) => {
            proof {
                reveal_strlit("<?xml version=\"1.0\" ?>\n<LatestFileList>\n");
                reveal_strlit("</LatestFileList>");
            }
            let mut out: String = String::new();
            out.append("<?xml version=\"1.0\" ?>\n<LatestFileList>\n");
            out.append("</LatestFileList>");
            proof {
                assert(out@ =~= sanitize_spec(root_v));
            }
            Ok(out)
        },
        XmlNode::Element(name, children) => {
            proof {
                lemma_element_view(*name, *children);
            }
            let ghost vs = nodes_view(children@);
            let mut body: String = String::new();
            let mut k: usize = 0;
            while k < children.len()
                invariant
                    k <= children@.len(),
                    vs == nodes_view(children@),
                    table_tag@ == tag_table_list(),
                    about_tag@ == tag_about(),
                    sanitize_children_spec(vs, 0) == body@ + sanitize_children_spec(vs, k as int),
                decreases children@.len() - k,
            {
                proof {
                    assert(vs[k as int] == node_view(children@[k as int]));
                }
                match &children[k] {
                    XmlNode::Element(nm, cs) => {
                        proof {
                            lemma_element_view(*nm, *cs);
                        }
                        if !chars_eq(nm, &table_tag) && !chars_eq(nm, &about_tag) {
                            let part: String = node_to_string(&children[k]);
                            proof {
                                reveal_strlit("\n");
                                assert((body@ + (part@ + "\n"@)) + sanitize_children_spec(
                                    vs,
                                    k as int + 1,
                                ) =~= body@ + ((part@ + seq!['\n']) + sanitize_children_spec(
                                    vs,
                                    k as int + 1,
                                )));
                            }
                            body.append(part.as_str());
                            body.append("\n");
                        }
                    },
                    XmlNode::Text(_) => {},
                }
                k = k + 1;
            }
            proof {
                assert(sanitize_children_spec(vs, children@.len() as int) =~= Seq::<char>::empty());
                assert(body@ + Seq::<char>::empty() =~= body@);
                reveal_strlit("<?xml version=\"1.0\" ?>\n<LatestFileList>\n");
                reveal_strlit("</LatestFileList>");
            }
            let mut out: String = String::new();
            out.append("<?xml version=\"1.0\" ?>\n<LatestFileList>\n");
            out.append(body.as_str());
            out.append("</LatestFileList>");
            proof {
                assert(out@ =~= sanitize_spec(root_v));
            }
            Ok(out)
        },
    }
}

/// Where trailing whitespace starts, scanning back from `j`.
pub open spec fn trim_end_idx(s: Seq<char>, j: int) -> int
    decreases j,
    when 0 <= j <= s.len()
{
    if j == 0 {
        0
    } else if is_xml_ws(s[j - 1]) {
        trim_end_idx(s, j - 1)
    } else {
        j
    }
}

/// `s` without leading and trailing whitespace.
pub open spec fn trimmed(s: Seq<char>) -> Seq<char> {
    let a = ws_end(s, 0);
    let b = trim_end_idx(s, s.len() as int);
    if a <= b {
        s.subrange(a, b)
    } else {
        Seq::empty()
    }
}

proof fn lemma_trim_end_at(s: Seq<char>, j: int, e: int)
    requires
        0 <= e <= j <= s.len(),
        forall|k: int| e <= k < j ==> is_xml_ws(#[trigger] s[k]),
        e == 0 || !is_xml_ws(s[e - 1]),
    ensures
        trim_end_idx(s, j) == e,
    decreases j - e,
{
    if e < j {
        lemma_trim_end_at(s, j - 1, e);
    }
}

fn trim_chars(v: &Vec<char>) -> (r: Vec<char>)
    ensures
        r@ == trimmed(v@),
{
    let n: usize = v.len();
    let a: usize = scan_ws(v, 0);
    let mut b: usize = n;
    while b > 0
        invariant
            b <= n,
            n == v@.len(),
            forall|k: int| b <= k < n ==> is_xml_ws(#[trigger] v@[k]),
        ensures
            b <= n,
            forall|k: int| b <= k < n ==> is_xml_ws(#[trigger] v@[k]),
            b == 0 || !is_xml_ws(v@[b - 1]),
        decreases b,
    {
        let c: char = v[b - 1];
        if !(c == ' ' || c == '\t' || c == '\n' || c == '\r') {
            break;
        }
        b = b - 1;
    }
    proof {
        lemma_trim_end_at(v@, n as int, b as int);
    }
    if a <= b {
        chars_subvec(v, a, b)
    } else {
        let r: Vec<char> = Vec::new();
        proof {
            assert(r@ =~= trimmed(v@));
        }
        r
    }
}

/// The text a record field carries: the text of its first child, when
/// that child is a text node.
pub open spec fn first_text(ns: Seq<XmlNodeV>) -> Seq<char> {
    if ns.len() > 0 {
        match ns[0] {
            XmlNodeV::Text(t) => t,
            _ => Seq::empty(),
        }
    } else {
        Seq::empty()
    }
}

fn first_text_chars(children: &Vec<XmlNode>) -> (r: Vec<char>)
    ensures
        r@ == first_text(nodes_view(children@)),
{
    if children.len() > 0 {
        proof {
            assert(nodes_view(children@)[0] == node_view(children@[0]));
        }
        match &children[0] {
            XmlNode::Text(t) => {
                let r: Vec<char> = chars_subvec(t, 0, t.len());
                proof {
                    assert(t@.subrange(0, t@.len() as int) =~= t@);
                }
                r
            },
            XmlNode::Element(_, _) => {
                let r: Vec<char> = Vec::new();
                proof {
                    assert(r@ =~= first_text(nodes_view(children@)));
                }
                r
            },
        }
    } else {
        let r: Vec<char> = Vec::new();
        proof {
            assert(r@ =~= first_text(nodes_view(children@)));
        }
        r
    }
}

pub open spec fn tag_record() -> Seq<char> {
    seq!['R', 'E', 'C', 'O', 'R', 'D']
}

pub open spec fn tag_src_file_name() -> Seq<char> {
    seq!['S', 'r', 'c', 'F', 'i', 'l', 'e', 'N', 'a', 'm', 'e']
}

pub open spec fn tag_file_type() -> Seq<char> {
    seq!['F', 'i', 'l', 'e', 'T', 'y', 'p', 'e']
}

pub open spec fn tag_size() -> Seq<char> {
    seq!['S', 'i', 'z', 'e']
}

pub open spec fn tag_header_size() -> Seq<char> {
    seq!['H', 'e', 'a', 'd', 'e', 'r', 'S', 'i', 'z', 'e']
}

pub open spec fn tag_compressed_header_size() -> Seq<char> {
    seq![
        'C', 'o', 'm', 'p', 'r', 'e', 's', 's', 'e', 'd', 'H', 'e', 'a', 'd', 'e', 'r', 'S', 'i',
        'z', 'e',
    ]
}

pub open spec fn tag_crc() -> Seq<char> {
    seq!['C', 'R', 'C']
}

pub open spec fn tag_header_crc() -> Seq<char> {
    seq!['H', 'e', 'a', 'd', 'e', 'r', 'C', 'R', 'C']
}

/// The number a manifest numeric field writes, zero when it is not a
/// plain decimal that fits 64 bits.
pub open spec fn parse_u64_or_zero(t: Seq<char>) -> u64 {
    match parse_u64_spec(t) {
        Some(v) => v,
        None => 0,
    }
}

/// One record field folded into the asset: the known tags set their
/// field from the child's trimmed text, unknown tags change nothing.
pub open spec fn apply_field(acc: AssetV, child: XmlNodeV) -> AssetV {
    match child {
        XmlNodeV::Element(nm, fcs) => {
            let txt = trimmed(first_text(fcs));
            if nm == tag_src_file_name() {
                AssetV { filename: txt, ..acc }
            } else if nm == tag_file_type() {
                AssetV { file_type: txt, ..acc }
            } else if nm == tag_size() {
                AssetV { size: parse_u64_or_zero(txt), ..acc }
            } else if nm == tag_header_size() {
                AssetV { header_size: parse_u64_or_zero(txt), ..acc }
            } else if nm == tag_compressed_header_size() {
                AssetV { compressed_header_size: parse_u64_or_zero(txt), ..acc }
            } else if nm == tag_crc() {
                AssetV { crc: parse_u64_or_zero(txt), ..acc }
            } else if nm == tag_header_crc() {
                AssetV { header_crc: parse_u64_or_zero(txt), ..acc }
            } else {
                acc
            }
        },
        XmlNodeV::Text(_) => acc,
    }
}

pub open spec fn record_fold(rcs: Seq<XmlNodeV>, k: int, acc: AssetV) -> AssetV
    decreases rcs.len() - k,
    when 0 <= k <= rcs.len()
{
    if k >= rcs.len() {
        acc
    } else {
        record_fold(rcs, k + 1, apply_field(acc, rcs[k]))
    }
}

/// The asset one RECORD element describes.
pub open spec fn record_asset(rcs: Seq<XmlNodeV>) -> AssetV {
    record_fold(rcs, 0, empty_asset_v())
}

/// The assets of one zone: one per RECORD element child, in order.
pub open spec fn zone_assets_from(zcs: Seq<XmlNodeV>, j: int) -> Seq<AssetV>
    decreases zcs.len() - j,
    when 0 <= j <= zcs.len()
{
    if j >= zcs.len() {
        Seq::empty()
    } else {
        let rest = zone_assets_from(zcs, j + 1);
        match zcs[j] {
            XmlNodeV::Element(nm, rcs) => if nm == tag_record() {
                seq![record_asset(rcs)] + rest
            } else {
                rest
            },
            XmlNodeV::Text(_) => rest,
        }
    }
}

/// The assets of the document: each zone's records, in document order.
pub open spec fn doc_assets_from(cs: Seq<XmlNodeV>, i: int) -> Seq<AssetV>
    decreases cs.len() - i,
    when 0 <= i <= cs.len()
{
    if i >= cs.len() {
        Seq::empty()
    } else {
        let rest = doc_assets_from(cs, i + 1);
        match cs[i] {
            XmlNodeV::Element(_, zcs) => zone_assets_from(zcs, 0) + rest,
            XmlNodeV::Text(_) => rest,
        }
    }
}

pub open spec fn doc_assets(root: XmlNodeV) -> Seq<AssetV> {
    match root {
        XmlNodeV::Element(_, cs) => doc_assets_from(cs, 0),
        XmlNodeV::Text(_) => Seq::empty(),
    }
}

pub open spec fn wad_suffix() -> Seq<char> {
    seq!['.', 'w', 'a', 'd']
}

/// Whether an asset's filename ends in `.wad`.
pub open spec fn is_wad(a: AssetV) -> bool {
    ends_with_spec(a.filename, wad_suffix())
}

pub open spec fn wad_assets(s: Seq<AssetV>) -> Seq<AssetV> {
    s.filter(|a: AssetV| is_wad(a))
}

pub open spec fn util_assets(s: Seq<AssetV>) -> Seq<AssetV> {
    s.filter(|a: AssetV| !is_wad(a))
}

fn parse_num(txt: &Vec<char>) -> (r: u64)
    ensures
        r == parse_u64_or_zero(txt@),
{
    match parse_u64_chars(txt) {
        Some(v) => v,
        None => 0,
    }
}

/// Reads one RECORD element's children into an asset: known tags set
/// their field from the child's trimmed text, later occurrences win.
pub fn extract_record_data(children: &Vec<XmlNode>) -> (r: Asset)
    ensures
        asset_view(r) == record_asset(nodes_view(children@)),
{
    let ghost vs = nodes_view(children@);
    let mut asset: Asset = Asset::default();
    proof {
        assert(asset_view(asset) == empty_asset_v());
    }
    let src_tag: Vec<char> = {
        let r: Vec<char> = vec!['S', 'r', 'c', 'F', 'i', 'l', 'e', 'N', 'a', 'm', 'e'];
        proof {
            assert(r@ =~= tag_src_file_name());
        }
        r
    };
    let file_type_tag: Vec<char> = {
        let r: Vec<char> = vec!['F', 'i', 'l', 'e', 'T', 'y', 'p', 'e'];
        proof {
            assert(r@ =~= tag_file_type());
        }
        r
    };
    let size_tag: Vec<char> = {
        let r: Vec<char> = vec!['S', 'i', 'z', 'e'];
        proof {
            assert(r@ =~= tag_size());
        }
        r
    };
    let header_size_tag: Vec<char> = {
        let r: Vec<char> = vec!['H', 'e', 'a', 'd', 'e', 'r', 'S', 'i', 'z', 'e'];
        proof {
            assert(r@ =~= tag_header_size());
        }
        r
    };
    let chs_tag: Vec<char> = {
        let r: Vec<char> = vec![
            'C', 'o', 'm', 'p', 'r', 'e', 's', 's', 'e', 'd', 'H', 'e', 'a', 'd', 'e', 'r', 'S',
            'i', 'z', 'e',
        ];
        proof {
            assert(r@ =~= tag_compressed_header_size());
        }
        r
    };
    let crc_tag: Vec<char> = {
        let r: Vec<char> = vec!['C', 'R', 'C'];
        proof {
            assert(r@ =~= tag_crc());
        }
        r
    };
    let header_crc_tag: Vec<char> = {
        let r: Vec<char> = vec!['H', 'e', 'a', 'd', 'e', 'r', 'C', 'R', 'C'];
        proof {
            assert(r@ =~= tag_header_crc());
        }
        r
    };
    let mut k: usize = 0;
    while k < children.len()
        invariant
            k <= children@.len(),
            vs == nodes_view(children@),
            src_tag@ == tag_src_file_name(),
            file_type_tag@ == tag_file_type(),
            size_tag@ == tag_size(),
            header_size_tag@ == tag_header_size(),
            chs_tag@ == tag_compressed_header_size(),
            crc_tag@ == tag_crc(),
            header_crc_tag@ == tag_header_crc(),
            record_fold(vs, k as int, asset_view(asset)) == record_asset(vs),
        decreases children@.len() - k,
    {
        let ghost av0 = asset_view(asset);
        proof {
            assert(vs[k as int] == node_view(children@[k as int]));
            assert(record_fold(vs, k as int, av0) == record_fold(
                vs,
                k as int + 1,
                apply_field(av0, vs[k as int]),
            ));
        }
        match &children[k] {
            XmlNode::Element(nm, fcs) => {
                proof {
                    lemma_element_view(*nm, *fcs);
                }
                let raw: Vec<char> = first_text_chars(fcs);
                let txt: Vec<char> = trim_chars(&raw);
                if chars_eq(nm, &src_tag) {
                    asset.filename = chars_to_string(&txt);
                } else if chars_eq(nm, &file_type_tag) {
                    asset.file_type = chars_to_string(&txt);
                } else if chars_eq(nm, &size_tag) {
                    asset.size = parse_num(&txt);
                } else if chars_eq(nm, &header_size_tag) {
                    asset.header_size = parse_num(&txt);
                } else if chars_eq(nm, &chs_tag) {
                    asset.compressed_header_size = parse_num(&txt);
                } else if chars_eq(nm, &crc_tag) {
                    asset.crc = parse_num(&txt);
                } else if chars_eq(nm, &header_crc_tag) {
                    asset.header_crc = parse_num(&txt);
                }
                proof {
                    assert(asset_view(asset) == apply_field(av0, vs[k as int]));
                }
            },
            XmlNode::Text(_) => {
                proof {
                    assert(asset_view(asset) == apply_field(av0, vs[k as int]));
                }
            },
        }
        k = k + 1;
    }
    proof {
        assert(record_fold(vs, children@.len() as int, asset_view(asset)) == asset_view(asset));
    }
    asset
}

/// Parses a sanitised manifest and returns its assets, partitioned into
/// wad archives and the rest, each in document order.
pub fn parse_xml(xml_content: &str) -> (r: Result<(Vec<Asset>, Vec<Asset>), AssetFetcherError>)
    ensures
        match r {
            Ok(p) => parse_document_spec(xml_content@) matches Some(root) && assets_view(p.0@)
                == wad_assets(doc_assets(root)) && assets_view(p.1@) == util_assets(
                doc_assets(root),
            ),
            Err(e) => e == AssetFetcherError::XMLParser && parse_document_spec(
                xml_content@,
            ) is None,
        },
{
    broadcast use vstd::seq_lib::group_filter_ensures;

    let root: XmlNode = match parse_document(xml_content) {
        Ok(root) => root,
        Err(e) => {
            return Err(e);
        },
    };
    let ghost root_v = node_view(root);
    let record_tag: Vec<char> = {
        let r: Vec<char> = vec!['R', 'E', 'C', 'O', 'R', 'D'];
        proof {
            assert(r@ =~= tag_record());
        }
        r
    };
    let mut records: Vec<Asset> = Vec::new();
    match &root {
        XmlNode::Text(_) => {},
        XmlNode::Element(name, children) => {
            proof {
                lemma_element_view(*name, *children);
            }
            let ghost vs = nodes_view(children@);
            let mut i: usize = 0;
            while i < children.len()
                invariant
                    i <= children@.len(),
                    vs == nodes_view(children@),
                    record_tag@ == tag_record(),
                    doc_assets_from(vs, 0) == assets_view(records@) + doc_assets_from(
                        vs,
                        i as int,
                    ),
                decreases children@.len() - i,
            {
                proof {
                    assert(vs[i as int] == node_view(children@[i as int]));
                }
                match &children[i] {
                    XmlNode::Text(_) => {
                        proof {
                            assert(doc_assets_from(vs, i as int) == doc_assets_from(
                                vs,
                                i as int + 1,
                            ));
                        }
                    },
                    XmlNode::Element(znm, zcs) => {
                        proof {
                            lemma_element_view(*znm, *zcs);
                        }
                        let ghost zvs = nodes_view(zcs@);
                        proof {
                            assert(doc_assets_from(vs, i as int) == zone_assets_from(zvs, 0)
                                + doc_assets_from(vs, i as int + 1));
                        }
                        let mut j: usize = 0;
                        while j < zcs.len()
                            invariant
                                j <= zcs@.len(),
                                i < children@.len(),
                                vs == nodes_view(children@),
                                zvs == nodes_view(zcs@),
                                record_tag@ == tag_record(),
                                doc_assets_from(vs, 0) == assets_view(records@)
                                    + zone_assets_from(zvs, j as int) + doc_assets_from(
                                    vs,
                                    i as int + 1,
                                ),
                            decreases zcs@.len() - j,
                        {
                            proof {
                                assert(zvs[j as int] == node_view(zcs@[j as int]));
                            }
                            match &zcs[j] {
                                XmlNode::Text(_) => {
                                    proof {
                                        assert(zone_assets_from(zvs, j as int)
                                            == zone_assets_from(zvs, j as int + 1));
                                    }
                                },
                                XmlNode::Element(rnm, rcs) => {
                                    proof {
                                        lemma_element_view(*rnm, *rcs);
                                    }
                                    if chars_eq(rnm, &record_tag) {
                                        let ghost recs0 = assets_view(records@);
                                        let a: Asset = extract_record_data(rcs);
                                        proof {
                                            assert(zone_assets_from(zvs, j as int) == seq![
                                                record_asset(nodes_view(rcs@)),
                                            ] + zone_assets_from(zvs, j as int + 1));
                                        }
                                        records.push(a);
                                        proof {
                                            assert(assets_view(records@) =~= recs0 + seq![
                                                asset_view(a),
                                            ]);
                                            assert((recs0 + seq![asset_view(a)])
                                                + zone_assets_from(zvs, j as int + 1)
                                                + doc_assets_from(vs, i as int + 1) =~= recs0 + (
                                            seq![asset_view(a)] + zone_assets_from(
                                                zvs,
                                                j as int + 1,
                                            )) + doc_assets_from(vs, i as int + 1));
                                        }
                                    } else {
                                        proof {
                                            assert(zone_assets_from(zvs, j as int)
                                                == zone_assets_from(zvs, j as int + 1));
                                        }
                                    }
                                },
                            }
                            j = j + 1;
                        }
                        proof {
                            assert(zone_assets_from(zvs, zcs@.len() as int)
                                =~= Seq::<AssetV>::empty());
                            assert(assets_view(records@) + Seq::<AssetV>::empty()
                                + doc_assets_from(vs, i as int + 1) =~= assets_view(records@)
                                + doc_assets_from(vs, i as int + 1));
                        }
                    },
                }
                i = i + 1;
            }
            proof {
                assert(doc_assets_from(vs, children@.len() as int) =~= Seq::<AssetV>::empty());
                assert(assets_view(records@) + Seq::<AssetV>::empty() =~= assets_view(records@));
            }
        },
    }
    let ghost all = assets_view(records@);
    proof {
        assert(all == doc_assets(root_v));
    }
    let mut wads: Vec<Asset> = Vec::new();
    let mut utils: Vec<Asset> = Vec::new();
    let mut k: usize = 0;
    while k < records.len()
        invariant
            k <= records@.len(),
            all == assets_view(records@),
            assets_view(wads@) == wad_assets(all.take(k as int)),
            assets_view(utils@) == util_assets(all.take(k as int)),
        decreases records@.len() - k,
    {
        proof {
            crate::diff::lemma_filter_take_step(all, |a: AssetV| is_wad(a), k as int);
            crate::diff::lemma_filter_take_step(all, |a: AssetV| !is_wad(a), k as int);
            assert(all[k as int] == asset_view(records@[k as int]));
        }
        let ghost wads0 = assets_view(wads@);
        let ghost utils0 = assets_view(utils@);
        proof {
            reveal_strlit(".wad");
            assert(".wad"@ =~= wad_suffix());
        }
        if crate::strutil::ends_with(records[k].filename.as_str(), ".wad") {
            wads.push(records[k].clone());
            proof {
                assert(assets_view(wads@) =~= wads0.push(asset_view(records@[k as int])));
            }
        } else {
            utils.push(records[k].clone());
            proof {
                assert(assets_view(utils@) =~= utils0.push(asset_view(records@[k as int])));
            }
        }
        k = k + 1;
    }
    proof {
        assert(all.take(records@.len() as int) =~= all);
    }
    Ok((wads, utils))
}

/// A tag name the serialisation can reproduce: nonempty name characters,
/// not opening like a comment, instruction or close tag.
pub open spec fn emittable_name(name: Seq<char>) -> bool {
    &&& name.len() >= 1
    &&& (forall|k: int| 0 <= k < name.len() ==> is_name_char(#[trigger] name[k]))
    &&& name[0] != '!'
    &&& name[0] != '?'
}

/// A tree the serialisation reproduces exactly when parsed back: names as
/// above, text runs nonempty and free of `<`, and no two adjacent text
/// nodes, which one parse would merge.
pub open spec fn emittable_node(n: XmlNodeV) -> bool
    decreases n, 0int,
{
    match n {
        XmlNodeV::Text(t) => t.len() >= 1 && (forall|k: int|
            0 <= k < t.len() ==> (#[trigger] t[k]) != '<'),
        XmlNodeV::Element(name, children) => emittable_name(name) && emittable_nodes_from(
            children,
            0,
        ),
    }
}

pub open spec fn emittable_nodes_from(ns: Seq<XmlNodeV>, k: int) -> bool
    decreases ns, ns.len() - k,
{
    if 0 <= k < ns.len() {
        &&& emittable_node(ns[k])
        &&& (k + 1 < ns.len() ==> !((ns[k] is Text) && (ns[k + 1] is Text)))
        &&& emittable_nodes_from(ns, k + 1)
    } else {
        true
    }
}

proof fn lemma_seg_index(s: Seq<char>, i: int, seg: Seq<char>, m: int)
    requires
        0 <= i,
        0 <= m < seg.len(),
        i + seg.len() <= s.len(),
        s.subrange(i, i + seg.len()) == seg,
    ensures
        s[i + m] == seg[m],
{
    assert(s.subrange(i, i + seg.len())[m] == s[i + m]);
}

/// Law, one half: parsing what `serialize_nodev` wrote for an element
/// gives the element back and stops exactly at its end, whatever follows.
pub proof fn lemma_parse_serialized_element(
    s: Seq<char>,
    i: int,
    name: Seq<char>,
    children: Seq<XmlNodeV>,
)
    requires
        emittable_name(name),
        emittable_nodes_from(children, 0),
        0 <= i,
        i + serialize_nodev(XmlNodeV::Element(name, children)).len() <= s.len(),
        s.subrange(i, i + serialize_nodev(XmlNodeV::Element(name, children)).len())
            == serialize_nodev(XmlNodeV::Element(name, children)),
    ensures
        parse_element_spec(s, i) == Some(
            (
                XmlNodeV::Element(name, children),
                i + serialize_nodev(XmlNodeV::Element(name, children)).len(),
            ),
        ),
    decreases serialize_nodev(XmlNodeV::Element(name, children)).len(), 0int,
{
    let ser = serialize_nodev(XmlNodeV::Element(name, children));
    let inner = serialize_nodesv(children, 0);
    let nl = name.len() as int;
    let il = inner.len() as int;
    assert(ser == seq!['<'] + name + seq!['>'] + inner + seq!['<', '/'] + name + seq!['>']);
    assert(ser.len() == il + 2 * nl + 5);
    assert forall|m: int| 0 <= m < ser.len() implies ser[m] == (
        if m == 0 {
            '<'
        } else if m < 1 + nl {
            name[m - 1]
        } else if m == 1 + nl {
            '>'
        } else if m < 2 + nl + il {
            inner[m - 2 - nl]
        } else if m == 2 + nl + il {
            '<'
        } else if m == 3 + nl + il {
            '/'
        } else if m < 4 + 2 * nl + il {
            name[m - 4 - nl - il]
        } else {
            '>'
        }) by {
        let l1 = seq!['<'] + name;
        let l2 = l1 + seq!['>'];
        let l3 = l2 + inner;
        let l4 = l3 + seq!['<', '/'];
        let l5 = l4 + name;
        assert(ser == l5 + seq!['>']);
        if m < 4 + 2 * nl + il {
            assert(ser[m] == l5[m]);
            if m < 4 + nl + il {
                assert(l5[m] == l4[m]);
                if m < 2 + nl + il {
                    assert(l4[m] == l3[m]);
                    if m < 2 + nl {
                        assert(l3[m] == l2[m]);
                        if m < 1 + nl {
                            assert(l2[m] == l1[m]);
                            if m == 0 {
                                assert(l1[m] == '<');
                            } else {
                                assert(l1[m] == name[m - 1]);
                            }
                        } else {
                            assert(l2[m] == '>');
                        }
                    } else {
                        assert(l3[m] == inner[m - 2 - nl]);
                    }
                } else if m == 2 + nl + il {
                    assert(l4[m] == '<');
                } else {
                    assert(l4[m] == '/');
                }
            } else {
                assert(l5[m] == name[m - 4 - nl - il]);
            }
        } else {
            assert(ser[m] == '>');
        }
    }
    assert(s[i] == '<') by {
        lemma_seg_index(s, i, ser, 0);
    }
    assert forall|k: int| i + 1 <= k < i + 1 + nl implies is_name_char(#[trigger] s[k]) by {
        lemma_seg_index(s, i, ser, k - i);
        assert(ser[k - i] == name[k - i - 1]);
    }
    assert(s[i + 1 + nl] == '>') by {
        lemma_seg_index(s, i, ser, 1 + nl);
    }
    crate::strutil::lemma_run_end_at(s, i + 1, i + 1 + nl, |c: char| is_name_char(c));
    assert(xml_name_end(s, i + 1) == i + 1 + nl);
    assert(s.subrange(i + 1, i + 1 + nl) =~= name) by {
        assert forall|m: int| 0 <= m < nl implies s.subrange(i + 1, i + 1 + nl)[m] == name[m] by {
            lemma_seg_index(s, i, ser, 1 + m);
            assert(s.subrange(i + 1, i + 1 + nl)[m] == s[i + 1 + m]);
            assert(i + 1 + m == i + (1 + m));
        }
    }
    assert(tag_close(s, i + 1 + nl, None) == Some((i + 1 + nl + 1, false)));
    let j = i + 2 + nl + il;
    assert(s.subrange(i + 2 + nl, j) =~= inner) by {
        assert forall|m: int| 0 <= m < il implies s.subrange(i + 2 + nl, j)[m] == inner[m] by {
            lemma_seg_index(s, i, ser, 2 + nl + m);
            assert(ser[2 + nl + m] == inner[m]);
            assert(s.subrange(i + 2 + nl, j)[m] == s[i + 2 + nl + m]);
            assert(i + 2 + nl + m == i + (2 + nl + m));
        }
    }
    assert(s[j] == '<') by {
        lemma_seg_index(s, i, ser, 2 + nl + il);
        assert(j == i + (2 + nl + il));
    }
    assert(s[j + 1] == '/') by {
        lemma_seg_index(s, i, ser, 3 + nl + il);
        assert(j + 1 == i + (3 + nl + il));
    }
    lemma_parse_serialized_content(s, i + 2 + nl, children, 0);
    assert(children.skip(0) =~= children);
    assert(parse_content_spec(s, i + 2 + nl) == Some((children, j)));
    assert forall|k: int| j + 2 <= k < j + 2 + nl implies is_name_char(#[trigger] s[k]) by {
        lemma_seg_index(s, i, ser, 4 + nl + il + (k - j - 2));
        assert(k == i + (4 + nl + il + (k - j - 2)));
        assert(ser[4 + nl + il + (k - j - 2)] == name[k - j - 2]);
    }
    assert(s[j + 2 + nl] == '>') by {
        lemma_seg_index(s, i, ser, 4 + 2 * nl + il);
        assert(j + 2 + nl == i + (4 + 2 * nl + il));
    }
    crate::strutil::lemma_run_end_at(s, j + 2, j + 2 + nl, |c: char| is_name_char(c));
    assert(xml_name_end(s, j + 2) == j + 2 + nl);
    assert(s.subrange(j + 2, j + 2 + nl) =~= name) by {
        assert forall|m: int| 0 <= m < nl implies s.subrange(j + 2, j + 2 + nl)[m] == name[m] by {
            lemma_seg_index(s, i, ser, 4 + nl + il + m);
            assert(ser[4 + nl + il + m] == name[m]);
            assert(s.subrange(j + 2, j + 2 + nl)[m] == s[j + 2 + m]);
            assert(j + 2 + m == i + (4 + nl + il + m));
        }
    }
    crate::strutil::lemma_run_end_at(s, j + 2 + nl, j + 2 + nl, |c: char| is_xml_ws(c));
    assert(ws_end(s, j + 2 + nl) == j + 2 + nl);
    assert(close_tag_spec(s, j, s.subrange(i + 1, i + 1 + nl), children) == Some(
        (XmlNodeV::Element(name, children), j + 2 + nl + 1),
    ));
    assert(j + 2 + nl + 1 == i + ser.len());
}

/// Law, the other half: parsing the serialisation of a node list stops at
/// the close tag that follows it and gives the nodes back.
pub proof fn lemma_parse_serialized_content(s: Seq<char>, i: int, children: Seq<XmlNodeV>, k: int)
    requires
        0 <= k <= children.len(),
        emittable_nodes_from(children, k),
        0 <= i,
        i + serialize_nodesv(children, k).len() + 2 <= s.len(),
        s.subrange(i, i + serialize_nodesv(children, k).len()) == serialize_nodesv(children, k),
        s[i + serialize_nodesv(children, k).len()] == '<',
        s[i + serialize_nodesv(children, k).len() + 1] == '/',
    ensures
        parse_content_spec(s, i) == Some(
            (children.skip(k), i + serialize_nodesv(children, k).len()),
        ),
    decreases serialize_nodesv(children, k).len(), 1int,
{
    let sc = serialize_nodesv(children, k);
    if k >= children.len() {
        assert(sc =~= Seq::<char>::empty());
        assert(children.skip(k) =~= Seq::<XmlNodeV>::empty());
        assert(s[i] == '<' && s[i + 1] == '/');
        assert(parse_content_spec(s, i) == Some((Seq::<XmlNodeV>::empty(), i)));
    } else {
        let first = serialize_nodev(children[k]);
        let rest = serialize_nodesv(children, k + 1);
        let fl = first.len() as int;
        let rl = rest.len() as int;
        assert(sc == first + rest);
        let i2 = i + fl;
        assert(s.subrange(i, i2) =~= first) by {
            assert forall|m: int| 0 <= m < fl implies s.subrange(i, i2)[m] == first[m] by {
                lemma_seg_index(s, i, sc, m);
                assert(sc[m] == first[m]);
                assert(s.subrange(i, i2)[m] == s[i + m]);
            }
        }
        assert(s.subrange(i2, i2 + rl) =~= rest) by {
            assert forall|m: int| 0 <= m < rl implies s.subrange(i2, i2 + rl)[m] == rest[m] by {
                lemma_seg_index(s, i, sc, fl + m);
                assert(sc[fl + m] == rest[m]);
                assert(s.subrange(i2, i2 + rl)[m] == s[i2 + m]);
                assert(i2 + m == i + (fl + m));
            }
        }
        assert(s[i2 + rl] == '<' && s[i2 + rl + 1] == '/') by {
            assert(i2 + rl == i + sc.len());
        }
        match children[k] {
            XmlNodeV::Text(t) => {
                assert(emittable_node(children[k]));
                assert(first == t);
                assert(t.len() >= 1);
                assert forall|m: int| i <= m < i + t.len() implies (#[trigger] s[m]) != '<' by {
                    lemma_seg_index(s, i, sc, m - i);
                    assert(sc[m - i] == t[m - i]);
                    assert(m == i + (m - i));
                }
                assert(s[i + t.len()] == '<') by {
                    if k + 1 < children.len() {
                        assert(!(children[k + 1] is Text));
                        match children[k + 1] {
                            XmlNodeV::Element(nm2, cs2) => {
                                assert(rest == serialize_nodev(children[k + 1])
                                    + serialize_nodesv(children, k + 2));
                                assert(serialize_nodev(children[k + 1]) == seq!['<'] + nm2 + seq![
                                    '>',
                                ] + serialize_nodesv(cs2, 0) + seq!['<', '/'] + nm2 + seq!['>']);
                                assert(rest[0] == '<');
                                lemma_seg_index(s, i, sc, fl);
                                assert(sc[fl] == rest[0]);
                            },
                            XmlNodeV::Text(_) => {},
                        }
                    } else {
                        assert(rest =~= Seq::<char>::empty());
                        assert(i + t.len() == i + sc.len());
                    }
                }
                crate::strutil::lemma_run_end_at(s, i, i + t.len(), |c: char| c != '<');
                assert(text_run_end(s, i) == i + t.len());
                assert(s[i] != '<') by {
                    lemma_seg_index(s, i, sc, 0);
                }
                lemma_parse_serialized_content(s, i + t.len(), children, k + 1);
                assert(s.subrange(i, i + t.len()) =~= t);
                assert(seq![XmlNodeV::Text(s.subrange(i, i + t.len()))] + children.skip(k + 1)
                    =~= children.skip(k));
                assert(parse_content_spec(s, i) == Some((children.skip(k), i + sc.len())));
            },
            XmlNodeV::Element(nm, cs) => {
                assert(emittable_node(children[k]));
                assert(first == seq!['<'] + nm + seq!['>'] + serialize_nodesv(cs, 0) + seq![
                    '<',
                    '/',
                ] + nm + seq!['>']);
                assert(first[0] == '<');
                assert(first[1] == nm[0]);
                assert(s[i] == '<') by {
                    lemma_seg_index(s, i, sc, 0);
                    assert(sc[0] == first[0]);
                }
                assert(s[i + 1] == nm[0]) by {
                    lemma_seg_index(s, i, sc, 1);
                    assert(sc[1] == first[1]);
                }
                assert(is_name_char(nm[0]));
                assert(s[i + 1] != '/' && s[i + 1] != '!' && s[i + 1] != '?');
                lemma_parse_serialized_element(s, i, nm, cs);
                assert(parse_element_spec(s, i) == Some((children[k], i2)));
                lemma_parse_serialized_content(s, i2, children, k + 1);
                assert(seq![children[k]] + children.skip(k + 1) =~= children.skip(k));
                assert(parse_content_spec(s, i) == Some((children.skip(k), i + sc.len())));
            },
        }
    }
}

proof fn lemma_pi_close_at(s: Seq<char>, i0: int, e: int)
    requires
        0 <= i0 <= e,
        e + 2 <= s.len(),
        forall|k: int| i0 <= k < e ==> !((#[trigger] s[k]) == '?' && s[k + 1] == '>'),
        s[e] == '?',
        s[e + 1] == '>',
    ensures
        pi_close(s, i0) == Some(e + 2),
    decreases e - i0,
{
    if i0 < e {
        lemma_pi_close_at(s, i0 + 1, e);
    }
}

/// What re-parsing the sanitised body yields: each kept element followed
/// by the newline the sanitiser printed after it.
pub open spec fn sanitized_children(ns: Seq<XmlNodeV>, k: int) -> Seq<XmlNodeV>
    decreases ns.len() - k,
    when 0 <= k <= ns.len()
{
    if k >= ns.len() {
        Seq::empty()
    } else {
        let rest = sanitized_children(ns, k + 1);
        match ns[k] {
            XmlNodeV::Element(nm, _) => if nm != tag_table_list() && nm != tag_about() {
                seq![ns[k], XmlNodeV::Text(seq!['\n'])] + rest
            } else {
                rest
            },
            XmlNodeV::Text(_) => rest,
        }
    }
}

proof fn lemma_sanitize_children_head(ns: Seq<XmlNodeV>, k: int)
    requires
        0 <= k <= ns.len(),
    ensures
        sanitize_children_spec(ns, k).len() > 0 ==> sanitize_children_spec(ns, k)[0] == '<',
    decreases ns.len() - k,
{
    if k < ns.len() {
        lemma_sanitize_children_head(ns, k + 1);
        match ns[k] {
            XmlNodeV::Element(nm, cs) => {
                if nm != tag_table_list() && nm != tag_about() {
                    let ser = serialize_nodev(ns[k]);
                    assert(ser == seq!['<'] + nm + seq!['>'] + serialize_nodesv(cs, 0) + seq![
                        '<',
                        '/',
                    ] + nm + seq!['>']);
                    assert(ser[0] == '<');
                    assert(sanitize_children_spec(ns, k)[0] == ser[0]);
                }
            },
            XmlNodeV::Text(_) => {},
        }
    }
}

proof fn lemma_parse_sanitized_children(s: Seq<char>, i: int, ns: Seq<XmlNodeV>, k: int)
    requires
        0 <= k <= ns.len(),
        forall|j: int|
            k <= j < ns.len() && (#[trigger] ns[j]) is Element ==> emittable_node(ns[j]),
        0 <= i,
        i + sanitize_children_spec(ns, k).len() + 2 <= s.len(),
        s.subrange(i, i + sanitize_children_spec(ns, k).len()) == sanitize_children_spec(ns, k),
        s[i + sanitize_children_spec(ns, k).len()] == '<',
        s[i + sanitize_children_spec(ns, k).len() + 1] == '/',
    ensures
        parse_content_spec(s, i) == Some(
            (sanitized_children(ns, k), i + sanitize_children_spec(ns, k).len()),
        ),
    decreases ns.len() - k,
{
    let sc = sanitize_children_spec(ns, k);
    if k >= ns.len() {
        assert(sc =~= Seq::<char>::empty());
        assert(s[i] == '<' && s[i + 1] == '/');
        assert(parse_content_spec(s, i) == Some((Seq::<XmlNodeV>::empty(), i)));
    } else {
        match ns[k] {
            XmlNodeV::Text(_) => {
                assert(sc == sanitize_children_spec(ns, k + 1));
                lemma_parse_sanitized_children(s, i, ns, k + 1);
            },
            XmlNodeV::Element(nm, cs) => {
                if !(nm != tag_table_list() && nm != tag_about()) {
                    assert(sc == sanitize_children_spec(ns, k + 1));
                    lemma_parse_sanitized_children(s, i, ns, k + 1);
                } else {
                    assert(emittable_node(ns[k]));
                    let ser = serialize_nodev(ns[k]);
                    let rest = sanitize_children_spec(ns, k + 1);
                    let fl = ser.len() as int;
                    let rl = rest.len() as int;
                    assert(sc == ser + seq!['\n'] + rest);
                    assert(sc.len() == fl + 1 + rl);
                    assert forall|m: int| 0 <= m < sc.len() implies s[i + m] == #[trigger] sc[m] by {
                        lemma_seg_index(s, i, sc, m);
                    }
                    assert forall|m: int| 0 <= m < sc.len() implies sc[m] == (
                        if m < fl {
                            ser[m]
                        } else if m == fl {
                            '\n'
                        } else {
                            rest[m - fl - 1]
                        }) by {
                        let l1 = ser + seq!['\n'];
                        assert(sc == l1 + rest);
                        if m < fl + 1 {
                            assert(sc[m] == l1[m]);
                            if m < fl {
                                assert(l1[m] == ser[m]);
                            } else {
                                assert(l1[m] == '\n');
                            }
                        } else {
                            assert(sc[m] == rest[m - fl - 1]);
                        }
                    }
                    // the kept element parses back exactly
                    assert(s.subrange(i, i + fl) =~= ser) by {
                        assert(forall|m: int|
                            0 <= m < fl ==> #[trigger] s.subrange(i, i + fl)[m] == s[i + m]);
                    }
                    assert(ser == seq!['<'] + nm + seq!['>'] + serialize_nodesv(cs, 0) + seq![
                        '<',
                        '/',
                    ] + nm + seq!['>']);
                    lemma_parse_serialized_element(s, i, nm, cs);
                    assert(parse_element_spec(s, i) == Some((ns[k], i + fl)));
                    assert(s[i] == '<' && s[i + 1] == nm[0]);
                    assert(is_name_char(nm[0]) && nm[0] != '!' && nm[0] != '?');
                    // then the printed newline, one text character wide
                    assert(sc[fl] == '\n');
                    assert(s[i + fl] == sc[fl]);
                    assert(s[i + fl + 1] == '<') by {
                        if rl > 0 {
                            lemma_sanitize_children_head(ns, k + 1);
                            assert(sc[fl + 1] == rest[0]);
                            assert(s[i + (fl + 1)] == sc[fl + 1]);
                            assert(i + fl + 1 == i + (fl + 1));
                        } else {
                            assert(i + fl + 1 == i + sc.len());
                        }
                    }
                    crate::strutil::lemma_run_end_at(
                        s,
                        i + fl,
                        i + fl + 1,
                        |c: char| c != '<',
                    );
                    assert(text_run_end(s, i + fl) == i + fl + 1);
                    // the rest of the body parses by induction
                    assert(i + fl + 1 + rl <= s.len());
                    assert(s.subrange(i + fl + 1, i + fl + 1 + rl) =~= rest) by {
                        assert forall|m: int|
                            0 <= m < rl implies s.subrange(i + fl + 1, i + fl + 1 + rl)[m]
                            == rest[m] by {
                            assert(sc[fl + 1 + m] == rest[m]);
                            assert(s[i + (fl + 1 + m)] == sc[fl + 1 + m]);
                            assert(s.subrange(i + fl + 1, i + fl + 1 + rl)[m] == s[i + fl + 1
                                + m]);
                            assert(i + fl + 1 + m == i + (fl + 1 + m));
                        }
                    }
                    assert(s[i + fl + 1 + rl] == '<' && s[i + fl + 1 + rl + 1] == '/') by {
                        assert(i + fl + 1 + rl == i + sc.len());
                    }
                    lemma_parse_sanitized_children(s, i + fl + 1, ns, k + 1);
                    assert(parse_content_spec(s, i + fl + 1) == Some(
                        (sanitized_children(ns, k + 1), i + fl + 1 + rl),
                    ));
                    // the newline text node sits between the element and the rest
                    assert(s.subrange(i + fl, i + fl + 1) =~= seq!['\n']);
                    assert(parse_content_spec(s, i + fl) == Some(
                        (
                            seq![XmlNodeV::Text(seq!['\n'])] + sanitized_children(ns, k + 1),
                            i + fl + 1 + rl,
                        ),
                    ));
                    assert(seq![ns[k]] + (seq![XmlNodeV::Text(seq!['\n'])] + sanitized_children(
                        ns,
                        k + 1,
                    )) =~= sanitized_children(ns, k));
                    assert(parse_content_spec(s, i) == Some(
                        (sanitized_children(ns, k), i + sc.len()),
                    ));
                }
            },
        }
    }
}

proof fn lemma_doc_assets_shift(a: Seq<XmlNodeV>, r: Seq<XmlNodeV>, m: int)
    requires
        0 <= m <= r.len(),
    ensures
        doc_assets_from(a + r, a.len() + m) == doc_assets_from(r, m),
    decreases r.len() - m,
{
    if m < r.len() {
        lemma_doc_assets_shift(a, r, m + 1);
        assert((a + r)[a.len() + m] == r[m]);
    } else {
        assert(doc_assets_from(a + r, a.len() + m) =~= Seq::<AssetV>::empty());
    }
}

/// A zone the sanitiser drops carries no records.
pub open spec fn dropped_zone_recordless(n: XmlNodeV) -> bool {
    match n {
        XmlNodeV::Element(nm, zcs) => (nm == tag_table_list() || nm == tag_about())
            ==> zone_assets_from(zcs, 0) == Seq::<AssetV>::empty(),
        XmlNodeV::Text(_) => true,
    }
}

proof fn lemma_sanitized_assets(ns: Seq<XmlNodeV>, k: int)
    requires
        0 <= k <= ns.len(),
        forall|j: int| k <= j < ns.len() ==> dropped_zone_recordless(#[trigger] ns[j]),
    ensures
        doc_assets_from(sanitized_children(ns, k), 0) == doc_assets_from(ns, k),
    decreases ns.len() - k,
{
    if k < ns.len() {
        lemma_sanitized_assets(ns, k + 1);
        match ns[k] {
            XmlNodeV::Text(_) => {},
            XmlNodeV::Element(nm, zcs) => {
                if nm != tag_table_list() && nm != tag_about() {
                    let pair = seq![ns[k], XmlNodeV::Text(seq!['\n'])];
                    let rest = sanitized_children(ns, k + 1);
                    let all = pair + rest;
                    assert(sanitized_children(ns, k) == all);
                    assert(all[0] == ns[k]);
                    assert(all[1] == XmlNodeV::Text(seq!['\n']));
                    assert(doc_assets_from(all, 0) == zone_assets_from(zcs, 0) + doc_assets_from(
                        all,
                        1,
                    ));
                    assert(doc_assets_from(all, 1) == doc_assets_from(all, 2));
                    lemma_doc_assets_shift(pair, rest, 0);
                    assert(doc_assets_from(all, 2) == doc_assets_from(rest, 0));
                } else {
                    assert(dropped_zone_recordless(ns[k]));
                    assert(zone_assets_from(zcs, 0) =~= Seq::<AssetV>::empty());
                    assert(doc_assets_from(ns, k) == zone_assets_from(zcs, 0) + doc_assets_from(
                        ns,
                        k + 1,
                    ));
                    assert(Seq::<AssetV>::empty() + doc_assets_from(ns, k + 1) =~= doc_assets_from(
                        ns,
                        k + 1,
                    ));
                }
            },
        }
    }
}

/// Law: sanitising is content-preserving. Parsing the sanitised
/// re-serialisation of a document yields a document carrying exactly the
/// same assets, provided the kept zones are serialisable trees (in
/// particular, no comment splits a text run in two) and the dropped
/// `_TableList` and `About` zones carry no records.
pub proof fn lemma_sanitize_round_trip(name: Seq<char>, children: Seq<XmlNodeV>)
    requires
        forall|j: int|
            0 <= j < children.len() && (#[trigger] children[j]) is Element ==> emittable_node(
                children[j],
            ),
        forall|j: int| 0 <= j < children.len() ==> dropped_zone_recordless(#[trigger] children[j]),
    ensures
        parse_document_spec(sanitize_spec(XmlNodeV::Element(name, children))) matches Some(root2)
            && doc_assets(root2) == doc_assets(XmlNodeV::Element(name, children)),
{
    reveal_strlit("<?xml version=\"1.0\" ?>\n<LatestFileList>\n");
    reveal_strlit("</LatestFileList>");
    let root = XmlNodeV::Element(name, children);
    let h = sanitize_header();
    let b = sanitize_children_spec(children, 0);
    let f = sanitize_footer();
    let s = sanitize_spec(root);
    let bl = b.len() as int;
    assert(s == h + b + f);
    assert(h.len() == 40);
    assert(f.len() == 17);
    assert(s.len() == 57 + bl);
    assert forall|m: int| 0 <= m < 40 implies s[m] == #[trigger] h[m] by {
        assert(s[m] == (h + b)[m]);
        assert((h + b)[m] == h[m]);
    }
    assert forall|m: int| 0 <= m < bl implies s[40 + m] == #[trigger] b[m] by {
        assert(s[40 + m] == (h + b)[40 + m]);
        assert((h + b)[40 + m] == b[m]);
    }
    assert forall|m: int| 0 <= m < 17 implies s[40 + bl + m] == #[trigger] f[m] by {
        assert(s[40 + bl + m] == f[40 + bl + m - (h + b).len()]);
    }
    // the prologue: the declaration, then the newline, then the root tag
    assert forall|k: int| 2 <= k < 20 implies !((#[trigger] s[k]) == '?' && s[k + 1] == '>') by {
        assert(s[k] == h[k]);
        assert(s[k + 1] == h[k + 1]);
    }
    assert(s[20] == '?' && s[21] == '>') by {
        assert(s[20] == h[20]);
        assert(s[21] == h[21]);
    }
    lemma_pi_close_at(s, 2, 20);
    assert(s[0] == '<' && s[1] == '?') by {
        assert(s[0] == h[0]);
        assert(s[1] == h[1]);
    }
    assert(s[22] == '\n') by {
        assert(s[22] == h[22]);
    }
    assert(s[23] == '<' && s[24] == 'L') by {
        assert(s[23] == h[23]);
        assert(s[24] == h[24]);
    }
    assert(prologue_end(s, 0) == prologue_end(s, 22));
    assert(prologue_end(s, 22) == prologue_end(s, 23));
    assert(prologue_end(s, 23) == Some(23int));
    // the root element's open tag
    assert forall|m: int| 24 <= m < 38 implies is_name_char(#[trigger] s[m]) by {
        assert(s[m] == h[m]);
    }
    assert(s[38] == '>') by {
        assert(s[38] == h[38]);
    }
    crate::strutil::lemma_run_end_at(s, 24, 38, |c: char| is_name_char(c));
    assert(xml_name_end(s, 24) == 38);
    let nm2 = s.subrange(24, 38);
    assert(tag_close(s, 38, None) == Some((39int, false)));
    // the newline the header prints before the first child
    assert(s[39] == '\n') by {
        assert(s[39] == h[39]);
    }
    assert(s[40] == '<') by {
        if bl > 0 {
            lemma_sanitize_children_head(children, 0);
            assert(s[40int + 0] == b[0int]);
        } else {
            assert(s[40 + bl + 0] == f[0int]);
        }
    }
    crate::strutil::lemma_run_end_at(s, 39, 40, |c: char| c != '<');
    assert(text_run_end(s, 39) == 40);
    // the body parses back to the kept children
    assert(s.subrange(40, 40 + bl) =~= b) by {
        assert(forall|m: int| 0 <= m < bl ==> #[trigger] s.subrange(40, 40 + bl)[m] == s[40 + m]);
    }
    assert(s[40 + bl] == '<' && s[40 + bl + 1] == '/') by {
        assert(s[40 + bl + 0] == f[0int]);
        assert(s[40 + bl + 1] == f[1int]);
    }
    lemma_parse_sanitized_children(s, 40, children, 0);
    let kept = sanitized_children(children, 0);
    let children2 = seq![XmlNodeV::Text(seq!['\n'])] + kept;
    assert(s.subrange(39, 40) =~= seq!['\n']);
    assert(parse_content_spec(s, 39) == Some((children2, 40 + bl)));
    // the close tag of the root element
    let j = 40 + bl;
    assert(nm2.len() == 14);
    assert forall|m: int| j + 2 <= m < j + 16 implies is_name_char(#[trigger] s[m]) by {
        assert(s[40 + bl + (m - j)] == f[m - j]);
    }
    assert(s[j + 16] == '>') by {
        assert(s[40 + bl + 16] == f[16int]);
    }
    crate::strutil::lemma_run_end_at(s, j + 2, j + 16, |c: char| is_name_char(c));
    assert(xml_name_end(s, j + 2) == j + 16);
    assert(s.subrange(j + 2, j + 16) =~= nm2) by {
        assert forall|m: int| 0 <= m < 14 implies s.subrange(j + 2, j + 16)[m] == nm2[m] by {
            assert(s.subrange(j + 2, j + 16)[m] == s[j + 2 + m]);
            assert(s[40 + bl + (2 + m)] == f[2 + m]);
            assert(j + 2 + m == 40 + bl + (2 + m));
            assert(nm2[m] == s[24 + m]);
            assert(s[24 + m] == h[24 + m]);
            assert(f[2 + m] == h[24 + m]);
        }
    }
    crate::strutil::lemma_run_end_at(s, j + 16, j + 16, |c: char| is_xml_ws(c));
    assert(ws_end(s, j + 16) == j + 16);
    assert(close_tag_spec(s, j, nm2, children2) == Some(
        (XmlNodeV::Element(nm2, children2), j + 17),
    ));
    assert(parse_element_spec(s, 23) == Some((XmlNodeV::Element(nm2, children2), j + 17)));
    assert(j + 17 == s.len());
    assert(epilogue_ws(s, s.len() as int));
    assert(parse_document_spec(s) == Some(XmlNodeV::Element(nm2, children2)));
    // the assets survive: the extra newline text nodes carry none, and the
    // dropped zones carried none
    assert(children2[0] is Text);
    assert(doc_assets_from(children2, 0) == doc_assets_from(children2, 1));
    lemma_doc_assets_shift(seq![XmlNodeV::Text(seq!['\n'])], kept, 0);
    assert(doc_assets_from(children2, 1) == doc_assets_from(kept, 0));
    lemma_sanitized_assets(children, 0);
    assert(doc_assets(XmlNodeV::Element(nm2, children2)) == doc_assets(root));
}

} // verus!
