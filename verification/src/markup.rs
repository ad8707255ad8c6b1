//! Markup parsing.
//!
//! Parsing is best effort: malformed markup never raises an error. A doctype
//! preamble makes the parser locate the `head` and `body` regions by
//! substring search and flatten each region's inner text into a text node;
//! without a doctype the whole input is treated as the contents of an
//! implicit `body`. Only malformed byte input (invalid UTF-8) is rejected.

use vstd::prelude::*;
use vstd::string::StrSliceExecFns;

use crate::document::Document;
use crate::errors::{ParserError, VeloraError, VeloraResult};
use crate::node::Node;
use crate::strings::{
    matches_at, spec_contains, spec_starts_with, str_find, str_starts_with, str_trim, trim_spec,
};
use crate::tree::DomTree;
use crate::types::NodeId;

verus! {

/// Tokens of the simple markup tokenizer.
#[derive(Debug, Clone, PartialEq)]
pub enum Token {
    TagStart(String),
    TagEnd(String),
    SelfClosingTag(String),
    Attribute(String, String),
    Text(String),
    Comment(String),
    CssRuleStart,
    CssRuleEnd,
    CssProperty(String, String),
    Eof,
}

/// A character-at-a-time tokenizer over a source string.
#[derive(Debug)]
pub struct Tokenizer {
    source: String,
    position: usize,
}

impl Tokenizer {
    /// The source (ghost).
    pub closed spec fn spec_source(self) -> Seq<char> {
        self.source@
    }

    /// The position, in characters (ghost).
    pub closed spec fn spec_position(self) -> nat {
        self.position as nat
    }

    /// Creates a tokenizer at the start of `source`.
    pub fn new(source: String) -> (r: Tokenizer)
        ensures
            r.spec_source() == source@,
            r.spec_position() == 0,
    {
        Tokenizer { source, position: 0 }
    }

    /// The next token: one character of text, or the end of the input.
    pub fn next_token(&mut self) -> (r: VeloraResult<Token>)
        ensures
            r is Ok,
            final(self).spec_source() == old(self).spec_source(),
            old(self).spec_position() >= old(self).spec_source().len() ==> r->Ok_0 == Token::Eof
                && final(self).spec_position() == old(self).spec_position(),
            old(self).spec_position() < old(self).spec_source().len() ==> final(
                self).spec_position() == old(self).spec_position() + 1 && (r->Ok_0 matches Token::Text(t)
                && t@ == seq![old(self).spec_source()[old(self).spec_position() as int]]),
    {
        let len = self.source.as_str().unicode_len();
        if self.position >= len {
            return Ok(Token::Eof);
        }
        let c = self.source.as_str().substring_char(self.position, self.position + 1);
        self.position = self.position + 1;
        Ok(Token::Text(c.to_owned()))
    }

    /// Whether characters remain.
    pub fn has_more(&self) -> (r: bool)
        ensures
            r == (self.spec_position() < self.spec_source().len()),
    {
        self.position < self.source.as_str().unicode_len()
    }
}

/// The text of `s` outside `<...>` markers, from index `i` on, given whether
/// the scan currently stands inside a marker.
pub open spec fn strip_from(s: Seq<char>, i: int, in_tag: bool) -> Seq<char>
    decreases s.len() - i when 0 <= i <= s.len()
{
    if i >= s.len() {
        Seq::empty()
    } else if s[i] == '<' {
        strip_from(s, i + 1, true)
    } else if s[i] == '>' {
        strip_from(s, i + 1, false)
    } else if in_tag {
        strip_from(s, i + 1, true)
    } else {
        seq![s[i]] + strip_from(s, i + 1, false)
    }
}

/// The text of `s` outside `<...>` markers.
pub open spec fn strip_tags(s: Seq<char>) -> Seq<char> {
    strip_from(s, 0, false)
}

/// Removes `<...>` markers, keeping the bare text between them.
pub fn strip_tags_exec(s: &str) -> (r: String)
    ensures
        r@ == strip_tags(s@),
{
    let len = s.unicode_len();
    let mut out = String::new();
    let mut in_tag = false;
    let mut i: usize = 0;
    while i < len
        invariant
            len == s@.len(),
            i <= len,
            out@ + strip_from(s@, i as int, in_tag) == strip_tags(s@),
        decreases len - i,
    {
        let c = s.get_char(i);
        if c == '<' {
            in_tag = true;
        } else if c == '>' {
            in_tag = false;
        } else if !in_tag {
            let ghost out0 = out@;
            let piece = s.substring_char(i, i + 1);
            out.append(piece);
            proof {
                assert(piece@ =~= seq![s@[i as int]]);
                assert(strip_from(s@, i as int, false) == seq![s@[i as int]] + strip_from(
                    s@,
                    i + 1,
                    false,
                ));
                assert(out@ + strip_from(s@, i + 1, false) =~= out0 + (seq![s@[i as int]]
                    + strip_from(s@, i + 1, false)));
            }
        }
        i = i + 1;
    }
    out
}

/// The index one past the opening marker of the first occurrence of `open`,
/// when `s` contains it.
pub open spec fn first_match(s: Seq<char>, sub: Seq<char>) -> int {
    choose|i: int|
        matches_at(s, sub, i) && forall|j: int| 0 <= j < i ==> !matches_at(s, sub, j)
}

/// The first match is the unique minimal one.
pub proof fn lemma_first_match_unique(s: Seq<char>, sub: Seq<char>, i: int)
    requires
        matches_at(s, sub, i),
        forall|j: int| 0 <= j < i ==> !matches_at(s, sub, j),
    ensures
        first_match(s, sub) == i,
{
    let w = first_match(s, sub);
    assert(matches_at(s, sub, w) && (forall|j: int| 0 <= j < w ==> !matches_at(s, sub, j))) by {
        assert(matches_at(s, sub, i) && forall|j: int| 0 <= j < i ==> !matches_at(s, sub, j));
    }
    if w < i {
        assert(!matches_at(s, sub, w));
    }
    if i < w {
        assert(!matches_at(s, sub, i));
    }
}

/// The region between an opening marker and its closing counterpart: from
/// one past the first occurrence of `open` to the first occurrence of
/// `close`, or to the end when `close` is missing or stands before the
/// opening marker.
pub open spec fn region_of(s: Seq<char>, open: Seq<char>, close: Seq<char>) -> Seq<char> {
    let start = first_match(s, open) + open.len();
    let end = if spec_contains(s, close) && first_match(s, close) >= start {
        first_match(s, close)
    } else {
        s.len() as int
    };
    s.subrange(start, end)
}

/// The flattened text of a region: tags stripped, whitespace trimmed.
pub open spec fn region_text(s: Seq<char>, open: Seq<char>, close: Seq<char>) -> Seq<char> {
    trim_spec(strip_tags(region_of(s, open, close)))
}

/// The flattened text of the whole input.
pub open spec fn whole_text(s: Seq<char>) -> Seq<char> {
    trim_spec(strip_tags(s))
}

/// Whether the node map of `doc`'s tree holds a node named `parent_name`
/// whose only child is a text node with value `v`.
pub open spec fn doc_text_under(doc: Document, parent_name: Seq<char>, v: Seq<char>) -> bool {
    exists|pid: u64, tid: u64|
        {
            &&& #[trigger] doc.spec_tree().nodes_map().contains_key(pid)
            &&& #[trigger] doc.spec_tree().nodes_map().contains_key(tid)
            &&& doc.spec_tree().nodes_map()[pid].node_name@ == parent_name
            &&& doc.spec_tree().nodes_map()[pid].child_ids@ == seq![NodeId(tid)]
            &&& doc.spec_tree().nodes_map()[tid].node_type is Text
            &&& doc.spec_tree().nodes_map()[tid].node_value is Some
            &&& (doc.spec_tree().nodes_map()[tid].node_value->0)@ == v
        }
}

/// The document shape the parser produces for `input`: a rooted, well-formed
/// tree holding a document node and an `html` element; with a doctype
/// preamble, a `head` and a `body` element for each region marker found,
/// each holding its region's flattened text as its only child; without one,
/// an implicit `body` holding the whole input's flattened text; and the node
/// count these pieces add up to.
pub open spec fn parsed_doc(doc: Document, input: Seq<char>) -> bool {
    let t = trim_spec(input);
    let doctype = spec_starts_with(t, "<!DOCTYPE"@);
    let has_head = spec_contains(t, "<head>"@);
    let has_body = spec_contains(t, "<body>"@);
    let head_text = region_text(t, "<head>"@, "</head>"@);
    let body_text = region_text(t, "<body>"@, "</body>"@);
    &&& doc.wf()
    &&& doc.spec_tree().root() is Some
    &&& doc_has_named(doc, "#document"@)
    &&& doc_has_named(doc, "html"@)
    &&& (doctype ==> {
        &&& (has_head ==> doc_has_named(doc, "head"@) && (head_text.len() > 0 ==> doc_has_text(
            doc,
            head_text,
        ) && doc_text_under(doc, "head"@, head_text)))
        &&& (has_body ==> doc_has_named(doc, "body"@) && (body_text.len() > 0 ==> doc_has_text(
            doc,
            body_text,
        ) && doc_text_under(doc, "body"@, body_text)))
        &&& doc.spec_tree().spec_node_count() == 2 + (if has_head {
            1 + (if head_text.len() > 0 {
                1int
            } else {
                0int
            })
        } else {
            0int
        }) + (if has_body {
            1 + (if body_text.len() > 0 {
                1int
            } else {
                0int
            })
        } else {
            0int
        })
    })
    &&& (!doctype ==> {
        &&& doc_has_named(doc, "body"@)
        &&& (whole_text(t).len() > 0 ==> doc_has_text(doc, whole_text(t)) && doc_text_under(
            doc,
            "body"@,
            whole_text(t),
        ))
        &&& doc.spec_tree().spec_node_count() == 3 + (if whole_text(t).len() > 0 {
            1int
        } else {
            0int
        })
    })
}

/// Whether the node map of `doc`'s tree holds a text node with value `v`.
pub open spec fn doc_has_text(doc: Document, v: Seq<char>) -> bool {
    exists|id: u64|
        {
            &&& #[trigger] doc.spec_tree().nodes_map().contains_key(id)
            &&& doc.spec_tree().nodes_map()[id].node_type is Text
            &&& doc.spec_tree().nodes_map()[id].node_value is Some
            &&& (doc.spec_tree().nodes_map()[id].node_value->0)@ == v
        }
}

/// Whether the node map of `doc`'s tree holds a node named `name`.
pub open spec fn doc_has_named(doc: Document, name: Seq<char>) -> bool {
    exists|id: u64|
        {
            &&& #[trigger] doc.spec_tree().nodes_map().contains_key(id)
            &&& doc.spec_tree().nodes_map()[id].node_name@ == name
        }
}

/// Whether `tr` stores a node named `name` under `id`.
pub open spec fn named_in(tr: DomTree, id: NodeId, name: Seq<char>) -> bool {
    tr.nodes_map().contains_key(id.0) && tr.nodes_map()[id.0].node_name@ == name
}

/// Whether `tr` stores a text node with value `v` under `id`.
pub open spec fn text_in(tr: DomTree, id: NodeId, v: Seq<char>) -> bool {
    &&& tr.nodes_map().contains_key(id.0)
    &&& tr.nodes_map()[id.0].node_type is Text
    &&& tr.nodes_map()[id.0].node_value is Some
    &&& (tr.nodes_map()[id.0].node_value->0)@ == v
}

/// Best-effort markup parser producing a document tree.
pub struct HtmlParser {
    ready: bool,
}

impl HtmlParser {
    /// Creates a parser.
    pub fn new() -> (r: HtmlParser) {
        HtmlParser { ready: true }
    }

    /// Parses markup into a document: a document node with an `html` element
    /// beneath it; with a doctype preamble, a `head` and a `body` element for
    /// the regions found by substring search, each holding its region's
    /// flattened text; without one, an implicit `body` holding the whole
    /// input's flattened text. Never fails.
    #[verifier::rlimit(100)]
    #[verifier::spinoff_prover]
    pub fn parse_html(&self, html: &str) -> (r: VeloraResult<Document>)
        ensures
            r is Ok,
            parsed_doc(r->Ok_0, html@),
    {
        let trimmed = str_trim(html);
        let mut tree = DomTree::new();
        let doc_id = match tree.create_document_node() {
            Ok(id) => id,
            Err(e) => {
                proof {
                    assert(false);
                }
                return Err(e);
            },
        };
        let html_id = match tree.create_element("html") {
            Ok(id) => id,
            Err(e) => {
                proof {
                    assert(false);
                }
                return Err(e);
            },
        };
        proof {
            assert(tree.nodes_map().contains_key(doc_id.0));
            assert(tree.nodes_map()[doc_id.0].node_name@ == "#document"@);
            assert(tree.nodes_map().contains_key(doc_id.0));
            assert(tree.nodes_map()[doc_id.0].node_name@ == "#document"@);
            assert(named_in(tree, doc_id, "#document"@));
            assert(tree.nodes_map().contains_key(html_id.0));
            assert(tree.nodes_map()[html_id.0].node_name@ == "html"@);
            assert(named_in(tree, html_id, "html"@));
        }
        append_must_succeed(&mut tree, doc_id, html_id);
        proof {
            assert(tree.nodes_map().contains_key(doc_id.0));
            assert(tree.nodes_map()[doc_id.0].node_name@ == "#document"@);
            assert(named_in(tree, doc_id, "#document"@));
            assert(tree.nodes_map().contains_key(html_id.0));
            assert(tree.nodes_map()[html_id.0].node_name@ == "html"@);
            assert(named_in(tree, html_id, "html"@));
        }
        let is_doctype = str_starts_with(trimmed.as_str(), "<!DOCTYPE");
        let mut head_id_opt: Option<NodeId> = None;
        let mut head_text_id_opt: Option<NodeId> = None;
        let mut body_id_opt: Option<NodeId> = None;
        let mut body_text_id_opt: Option<NodeId> = None;
        let ghost t = trimmed@;
        if is_doctype {
            match str_find(trimmed.as_str(), "<head>") {
                Some(hs) => {
                    proof {
                        lemma_first_match_unique(t, "<head>"@, hs as int);
                    }
                    let region = extract_region(trimmed.as_str(), hs, "<head>", "</head>");
                    let head_id = match tree.create_element("head") {
                        Ok(id) => id,
                        Err(e) => {
                            proof {
                                assert(false);
                            }
                            return Err(e);
                        },
                    };
                    append_must_succeed(&mut tree, html_id, head_id);
                    head_id_opt = Some(head_id);
                    proof {
                        assert(tree.nodes_map().contains_key(doc_id.0));
                        assert(tree.nodes_map()[doc_id.0].node_name@ == "#document"@);
                        assert(named_in(tree, doc_id, "#document"@));
                        assert(tree.nodes_map().contains_key(html_id.0));
                        assert(tree.nodes_map()[html_id.0].node_name@ == "html"@);
                        assert(named_in(tree, html_id, "html"@));
                        assert(tree.nodes_map().contains_key(head_id.0));
                        assert(tree.nodes_map()[head_id.0].node_name@ == "head"@);
                        assert(named_in(tree, head_id, "head"@));
                    }
                    let text = str_trim(strip_tags_exec(region.as_str()).as_str());
                    if text.as_str().unicode_len() > 0 {
                        let text_id = match tree.create_text_node(text.as_str()) {
                            Ok(id) => id,
                            Err(e) => {
                                proof {
                                    assert(false);
                                }
                                return Err(e);
                            },
                        };
                        append_must_succeed(&mut tree, head_id, text_id);
                        head_text_id_opt = Some(text_id);
                        proof {
                            assert(tree.nodes_map().contains_key(doc_id.0));
                            assert(tree.nodes_map()[doc_id.0].node_name@ == "#document"@);
                            assert(named_in(tree, doc_id, "#document"@));
                            assert(tree.nodes_map().contains_key(html_id.0));
                            assert(tree.nodes_map()[html_id.0].node_name@ == "html"@);
                            assert(named_in(tree, html_id, "html"@));
                            assert(tree.nodes_map().contains_key(head_id.0));
                            assert(tree.nodes_map()[head_id.0].node_name@ == "head"@);
                            assert(named_in(tree, head_id, "head"@));
                            assert(tree.nodes_map().contains_key(text_id.0));
                            assert(tree.nodes_map()[text_id.0].node_type is Text);
                            assert(tree.nodes_map()[text_id.0].node_value is Some);
                            assert((tree.nodes_map()[text_id.0].node_value->0)@ == region_text(t, "<head>"@, "</head>"@));
                            assert(text_in(tree, text_id, region_text(t, "<head>"@, "</head>"@)));
                            assert(tree.nodes_map()[head_id.0].child_ids@ =~= seq![
                                NodeId(text_id.0),
                            ]);
                        }
                    }
                },
                None => {},
            }
            match str_find(trimmed.as_str(), "<body>") {
                Some(bs) => {
                    proof {
                        lemma_first_match_unique(t, "<body>"@, bs as int);
                    }
                    let region = extract_region(trimmed.as_str(), bs, "<body>", "</body>");
                    let body_id = match tree.create_element("body") {
                        Ok(id) => id,
                        Err(e) => {
                            proof {
                                assert(false);
                            }
                            return Err(e);
                        },
                    };
                    append_must_succeed(&mut tree, html_id, body_id);
                    body_id_opt = Some(body_id);
                    proof {
                        assert(tree.nodes_map().contains_key(doc_id.0));
                        assert(tree.nodes_map()[doc_id.0].node_name@ == "#document"@);
                        assert(named_in(tree, doc_id, "#document"@));
                        assert(tree.nodes_map().contains_key(html_id.0));
                        assert(tree.nodes_map()[html_id.0].node_name@ == "html"@);
                        assert(named_in(tree, html_id, "html"@));
                        assert(tree.nodes_map().contains_key(body_id.0));
                        assert(tree.nodes_map()[body_id.0].node_name@ == "body"@);
                        assert(named_in(tree, body_id, "body"@));
                        match head_id_opt {
                            Some(hid) => {
                                assert(tree.nodes_map().contains_key(hid.0));
                                assert(tree.nodes_map()[hid.0].node_name@ == "head"@);
                                assert(named_in(tree, hid, "head"@));
                            },
                            None => {},
                        }
                        match head_text_id_opt {
                            Some(tid) => {
                                assert(tree.nodes_map().contains_key(tid.0));
                                assert(tree.nodes_map()[tid.0].node_type is Text);
                                assert(tree.nodes_map()[tid.0].node_value is Some);
                                assert((tree.nodes_map()[tid.0].node_value->0)@ == region_text(t, "<head>"@, "</head>"@));
                                assert(text_in(tree, tid, region_text(t, "<head>"@, "</head>"@)));
                            },
                            None => {},
                        }
                        match (head_id_opt, head_text_id_opt) {
                            (Some(hid), Some(tid)) => {
                                assert(tree.nodes_map()[hid.0].child_ids@ =~= seq![
                                    NodeId(tid.0),
                                ]);
                            },
                            _ => {},
                        }
                    }
                    let text = str_trim(strip_tags_exec(region.as_str()).as_str());
                    if text.as_str().unicode_len() > 0 {
                        let text_id = match tree.create_text_node(text.as_str()) {
                            Ok(id) => id,
                            Err(e) => {
                                proof {
                                    assert(false);
                                }
                                return Err(e);
                            },
                        };
                        append_must_succeed(&mut tree, body_id, text_id);
                        body_text_id_opt = Some(text_id);
                        proof {
                            assert(tree.nodes_map().contains_key(doc_id.0));
                            assert(tree.nodes_map()[doc_id.0].node_name@ == "#document"@);
                            assert(named_in(tree, doc_id, "#document"@));
                            assert(tree.nodes_map().contains_key(html_id.0));
                            assert(tree.nodes_map()[html_id.0].node_name@ == "html"@);
                            assert(named_in(tree, html_id, "html"@));
                            assert(tree.nodes_map().contains_key(body_id.0));
                            assert(tree.nodes_map()[body_id.0].node_name@ == "body"@);
                            assert(named_in(tree, body_id, "body"@));
                            assert(tree.nodes_map().contains_key(text_id.0));
                            assert(tree.nodes_map()[text_id.0].node_type is Text);
                            assert(tree.nodes_map()[text_id.0].node_value is Some);
                            assert((tree.nodes_map()[text_id.0].node_value->0)@ == region_text(t, "<body>"@, "</body>"@));
                            assert(text_in(tree, text_id, region_text(t, "<body>"@, "</body>"@)));
                            assert(tree.nodes_map()[body_id.0].child_ids@ =~= seq![
                                NodeId(text_id.0),
                            ]);
                            match head_id_opt {
                                Some(hid) => {
                                    assert(tree.nodes_map().contains_key(hid.0));
                                    assert(tree.nodes_map()[hid.0].node_name@ == "head"@);
                                    assert(named_in(tree, hid, "head"@));
                                },
                                None => {},
                            }
                            match head_text_id_opt {
                                Some(tid) => {
                                    assert(tree.nodes_map().contains_key(tid.0));
                                    assert(tree.nodes_map()[tid.0].node_type is Text);
                                    assert(tree.nodes_map()[tid.0].node_value is Some);
                                    assert((tree.nodes_map()[tid.0].node_value->0)@ == region_text(t, "<head>"@, "</head>"@));
                                    assert(text_in(tree, tid, region_text(t, "<head>"@, "</head>"@)));
                                },
                                None => {},
                            }
                            match (head_id_opt, head_text_id_opt) {
                                (Some(hid), Some(tid)) => {
                                    assert(tree.nodes_map()[hid.0].child_ids@ =~= seq![
                                        NodeId(tid.0),
                                    ]);
                                },
                                _ => {},
                            }
                        }
                    }
                },
                None => {},
            }
        } else {
            let body_id = match tree.create_element("body") {
                Ok(id) => id,
                Err(e) => {
                    proof {
                        assert(false);
                    }
                    return Err(e);
                },
            };
            append_must_succeed(&mut tree, html_id, body_id);
            body_id_opt = Some(body_id);
            proof {
                assert(tree.nodes_map().contains_key(doc_id.0));
                assert(tree.nodes_map()[doc_id.0].node_name@ == "#document"@);
                assert(named_in(tree, doc_id, "#document"@));
                assert(tree.nodes_map().contains_key(html_id.0));
                assert(tree.nodes_map()[html_id.0].node_name@ == "html"@);
                assert(named_in(tree, html_id, "html"@));
                assert(tree.nodes_map().contains_key(body_id.0));
                assert(tree.nodes_map()[body_id.0].node_name@ == "body"@);
                assert(named_in(tree, body_id, "body"@));
            }
            let text = str_trim(strip_tags_exec(trimmed.as_str()).as_str());
            if text.as_str().unicode_len() > 0 {
                let text_id = match tree.create_text_node(text.as_str()) {
                    Ok(id) => id,
                    Err(e) => {
                        proof {
                            assert(false);
                        }
                        return Err(e);
                    },
                };
                append_must_succeed(&mut tree, body_id, text_id);
                body_text_id_opt = Some(text_id);
                proof {
                    assert(tree.nodes_map().contains_key(doc_id.0));
                    assert(tree.nodes_map()[doc_id.0].node_name@ == "#document"@);
                    assert(named_in(tree, doc_id, "#document"@));
                    assert(tree.nodes_map().contains_key(html_id.0));
                    assert(tree.nodes_map()[html_id.0].node_name@ == "html"@);
                    assert(named_in(tree, html_id, "html"@));
                    assert(tree.nodes_map().contains_key(body_id.0));
                    assert(tree.nodes_map()[body_id.0].node_name@ == "body"@);
                    assert(named_in(tree, body_id, "body"@));
                    assert(tree.nodes_map().contains_key(text_id.0));
                    assert(tree.nodes_map()[text_id.0].node_type is Text);
                    assert(tree.nodes_map()[text_id.0].node_value is Some);
                    assert((tree.nodes_map()[text_id.0].node_value->0)@ == whole_text(t));
                    assert(text_in(tree, text_id, whole_text(t)));
                    assert(tree.nodes_map()[body_id.0].child_ids@ =~= seq![NodeId(text_id.0)]);
                }
            }
        }
        let ghost gt = tree;
        let mut document = Document::new(NodeId(1));
        document.set_dom_tree(tree);
        proof {
            assert(document.spec_tree() == gt);
            assert(doc_has_named(document, "#document"@)) by {
                assert(named_in(gt, doc_id, "#document"@));
            }
            assert(doc_has_named(document, "html"@)) by {
                assert(named_in(gt, html_id, "html"@));
            }
            match head_id_opt {
                Some(hid) => {
                    assert(doc_has_named(document, "head"@)) by {
                        assert(named_in(gt, hid, "head"@));
                    }
                },
                None => {},
            }
            match body_id_opt {
                Some(bid) => {
                    assert(doc_has_named(document, "body"@)) by {
                        assert(named_in(gt, bid, "body"@));
                    }
                },
                None => {},
            }
            match head_text_id_opt {
                Some(tid) => {
                    assert(doc_has_text(document, region_text(t, "<head>"@, "</head>"@))) by {
                        assert(text_in(gt, tid, region_text(t, "<head>"@, "</head>"@)));
                    }
                },
                None => {},
            }
            match (head_id_opt, head_text_id_opt) {
                (Some(hid), Some(tid)) => {
                    assert(doc_text_under(document, "head"@, region_text(t, "<head>"@, "</head>"@)))
                        by {
                        assert(named_in(gt, hid, "head"@) && text_in(
                            gt,
                            tid,
                            region_text(t, "<head>"@, "</head>"@),
                        ) && gt.nodes_map()[hid.0].child_ids@ == seq![NodeId(tid.0)]);
                    }
                },
                _ => {},
            }
            match body_text_id_opt {
                Some(tid) => {
                    if is_doctype {
                        assert(doc_has_text(document, region_text(t, "<body>"@, "</body>"@))) by {
                            assert(text_in(gt, tid, region_text(t, "<body>"@, "</body>"@)));
                        }
                    } else {
                        assert(doc_has_text(document, whole_text(t))) by {
                            assert(text_in(gt, tid, whole_text(t)));
                        }
                    }
                },
                None => {},
            }
            match (body_id_opt, body_text_id_opt) {
                (Some(bid), Some(tid)) => {
                    if is_doctype {
                        assert(doc_text_under(
                            document,
                            "body"@,
                            region_text(t, "<body>"@, "</body>"@),
                        )) by {
                            assert(named_in(gt, bid, "body"@) && text_in(
                                gt,
                                tid,
                                region_text(t, "<body>"@, "</body>"@),
                            ) && gt.nodes_map()[bid.0].child_ids@ == seq![NodeId(tid.0)]);
                        }
                    } else {
                        assert(doc_text_under(document, "body"@, whole_text(t))) by {
                            assert(named_in(gt, bid, "body"@) && text_in(gt, tid, whole_text(t))
                                && gt.nodes_map()[bid.0].child_ids@ == seq![NodeId(tid.0)]);
                        }
                    }
                },
                _ => {},
            }
        }
        Ok(document)
    }

    /// Parses markup into a document, as `parse_html`.
    pub fn parse(&self, html: &str) -> (r: VeloraResult<Document>)
        ensures
            r is Ok,
            parsed_doc(r->Ok_0, html@),
    {
        self.parse_html(html)
    }

    /// Parses markup as the children of a context element: the flattened
    /// text becomes a single text node, or no node when it is empty. Never
    /// fails.
    pub fn parse_fragment(&self, html: &str, context_element: &str) -> (r: VeloraResult<Vec<Node>>)
        ensures
            r is Ok,
            whole_text(html@).len() == 0 ==> r->Ok_0@.len() == 0,
            whole_text(html@).len() > 0 ==> r->Ok_0@.len() == 1 && r->Ok_0@[0].node_type is Text
                && r->Ok_0@[0].node_value is Some && (r->Ok_0@[0].node_value->0)@ == whole_text(
                html@,
            ),
    {
        let _ = context_element;
        let mut out: Vec<Node> = Vec::new();
        let text = str_trim(strip_tags_exec(html).as_str());
        if text.as_str().unicode_len() > 0 {
            out.push(Node::new_text(NodeId(1), text));
        }
        Ok(out)
    }

    /// Parses raw bytes: rejects invalid UTF-8 with an encoding error, then
    /// parses the decoded text as `parse_html` does.
    pub fn parse_bytes(&self, bytes: &[u8]) -> (r: VeloraResult<Document>)
        ensures
            r is Ok <==> vstd::utf8::valid_utf8(bytes@),
            !vstd::utf8::valid_utf8(bytes@) ==> r matches Err(
                VeloraError::Parser(ParserError::InvalidEncoding(_)),
            ),
            r is Ok ==> parsed_doc(r->Ok_0, vstd::utf8::decode_utf8(bytes@)),
    {
        match utf8_decode(bytes) {
            Some(text) => self.parse_html(text),
            None => Err(
                VeloraError::Parser(
                    ParserError::InvalidEncoding("input is not valid UTF-8".to_owned()),
                ),
            ),
        }
    }
}

impl Default for HtmlParser {
    /// A parser, as `new`.
    fn default() -> (r: HtmlParser) {
        HtmlParser::new()
    }
}

/// The region between `open_tag` (whose first occurrence starts at `start`)
/// and `close_tag`.
fn extract_region<'a>(s: &'a str, start: usize, open_tag: &str, close_tag: &str) -> (r: String)
    requires
        matches_at(s@, open_tag@, start as int),
        forall|j: int| 0 <= j < start ==> !matches_at(s@, open_tag@, j),
    ensures
        r@ == region_of(s@, open_tag@, close_tag@),
{
    proof {
        lemma_first_match_unique(s@, open_tag@, start as int);
    }
    let len = s.unicode_len();
    let open_len = open_tag.unicode_len();
    let from = start + open_len;
    let to = match str_find(s, close_tag) {
        Some(ce) => {
            proof {
                lemma_first_match_unique(s@, close_tag@, ce as int);
            }
            if ce >= from {
                ce
            } else {
                len
            }
        },
        None => len,
    };
    let piece = s.substring_char(from, to);
    piece.to_owned()
}

/// Appends `child` under `parent`, in a state where the operation cannot
/// fail: both stored, distinct, and the child detached.
fn append_must_succeed(tree: &mut DomTree, parent: NodeId, child: NodeId)
    requires
        old(tree).wf(),
        old(tree).nodes_map().contains_key(parent.0),
        old(tree).nodes_map().contains_key(child.0),
        parent.0 != child.0,
        old(tree).nodes_map()[child.0].parent_id is None,
    ensures
        final(tree).wf(),
        final(tree).nodes_map().dom() == old(tree).nodes_map().dom(),
        crate::tree::append_shape(old(tree).nodes_map(), final(tree).nodes_map(), parent.0, child.0),
        final(tree).elements_map() == old(tree).elements_map(),
        final(tree).root() == old(tree).root(),
        final(tree).next_node() == old(tree).next_node(),
        final(tree).next_element() == old(tree).next_element(),
        final(tree).spec_node_count() == old(tree).spec_node_count(),
        final(tree).spec_element_count() == old(tree).spec_element_count(),
    {
    let r = tree.append_child(parent, child);
    proof {
        assert(r is Ok);
    }
}

/// Relies on std's str::from_utf8: it succeeds exactly on valid UTF-8 and
/// decodes the bytes to the characters they encode.
#[verifier::external_body]
pub(crate) fn utf8_decode(bytes: &[u8]) -> (r: Option<&str>)
    ensures
        r is Some <==> vstd::utf8::valid_utf8(bytes@),
        r is Some ==> r->0@ == vstd::utf8::decode_utf8(bytes@),
{
    core::str::from_utf8(bytes).ok()
}

/// Parsing entry point of the placeholder tokenizer pipeline; accepts every
/// input.
pub fn parse_html(input: &str) -> (r: Result<(), ParseError>)
    ensures
        r is Ok,
{
    let _ = input;
    Ok(())
}

/// Error of the placeholder tokenizer pipeline.
#[derive(Debug, Clone, PartialEq)]
pub enum ParseError {
    Generic,
}

} // verus!
