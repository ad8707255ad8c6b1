//! CSS parsing: rule and selector structures with a simplified parser.

use vstd::prelude::*;

use crate::errors::{ParserError, VeloraError, VeloraResult};
use crate::strings::{spec_contains, str_contains, str_eq, str_starts_with};
use vstd::string::StrSliceExecFns;

verus! {

/// Parser options.
#[derive(Debug, Clone, PartialEq)]
pub struct CssParserOptions {
    /// Whether vendor prefixes are parsed.
    pub parse_vendor_prefixes: bool,
    /// Whether syntax errors are rejected rather than skipped.
    pub strict_mode: bool,
}

impl Default for CssParserOptions {
    /// Defaults: vendor prefixes on, lenient.
    fn default() -> (r: CssParserOptions)
        ensures
            r.parse_vendor_prefixes,
            !r.strict_mode,
    {
        CssParserOptions { parse_vendor_prefixes: true, strict_mode: false }
    }
}

/// Kinds of CSS rules.
#[derive(Debug, Clone, Copy, PartialEq, Eq, Structural)]
pub enum CssRuleType {
    Style,
    Import,
    Media,
    FontFace,
    Keyframes,
    Page,
    Supports,
}

/// Selector specificity, most significant component first.
#[derive(Debug, Clone, Copy, PartialEq, Eq, PartialOrd, Ord, Hash, Structural)]
pub struct SelectorSpecificity {
    /// Identifier selectors.
    pub a: u32,
    /// Class, attribute and pseudo-class selectors.
    pub b: u32,
    /// Element and pseudo-element selectors.
    pub c: u32,
}

/// Attribute selector operators.
#[derive(Debug, Clone, Copy, PartialEq, Eq, Structural)]
pub enum AttributeOperator {
    Equals,
    Contains,
    StartsWith,
    EndsWith,
    ContainsWord,
    ContainsPrefix,
}

/// Combinators between selector parts.
#[derive(Debug, Clone, Copy, PartialEq, Eq, Structural)]
pub enum CombinatorType {
    Descendant,
    Child,
    Adjacent,
    Sibling,
}

/// One part of a selector.
#[derive(Debug, Clone, PartialEq)]
pub enum SelectorPart {
    Element(String),
    Id(String),
    Class(String),
    Attribute(String, Option<String>, Option<AttributeOperator>),
    PseudoClass(String),
    PseudoElement(String),
    Universal,
    Combinator(CombinatorType),
}

/// A selector: its parts and their combined specificity.
#[derive(Debug, Clone, PartialEq)]
pub struct CssSelector {
    pub specificity: SelectorSpecificity,
    pub parts: Vec<SelectorPart>,
}

/// A declaration within a rule.
#[derive(Debug, Clone, PartialEq)]
pub struct CssProperty {
    pub name: String,
    pub value: String,
    pub important: bool,
    pub source_position: Option<CssSourcePosition>,
}

/// A position in the source text.
#[derive(Debug, Clone, PartialEq)]
pub struct CssSourcePosition {
    pub line: u32,
    pub column: u32,
    pub file: Option<String>,
}

/// A rule: its kind, selectors and declarations.
#[derive(Debug, Clone, PartialEq)]
pub struct CssRule {
    pub rule_type: CssRuleType,
    pub selectors: Vec<CssSelector>,
    pub properties: Vec<CssProperty>,
    pub source_position: Option<CssSourcePosition>,
}

/// The specificity a selector-part list accrues: identifier parts on the
/// first component; class, attribute and pseudo-class parts on the second;
/// element and pseudo-element parts on the third.
pub open spec fn spec_specificity(parts: Seq<SelectorPart>) -> (int, int, int)
    decreases parts.len(),
{
    if parts.len() == 0 {
        (0int, 0int, 0int)
    } else {
        let (a, b, c) = spec_specificity(parts.drop_last());
        match parts.last() {
            SelectorPart::Id(_) => (a + 1, b, c),
            SelectorPart::Class(_) => (a, b + 1, c),
            SelectorPart::Attribute(_, _, _) => (a, b + 1, c),
            SelectorPart::PseudoClass(_) => (a, b + 1, c),
            SelectorPart::Element(_) => (a, b, c + 1),
            SelectorPart::PseudoElement(_) => (a, b, c + 1),
            _ => (a, b, c),
        }
    }
}

/// A simplified CSS parser.
pub struct CssParser {
    /// Parser options.
    pub options: CssParserOptions,
}

impl CssParser {
    /// The options (ghost).
    pub open spec fn spec_options(self) -> CssParserOptions {
        self.options
    }

    /// A parser with default options.
    pub fn new() -> (r: CssParser)
        ensures
            r.spec_options().parse_vendor_prefixes,
            !r.spec_options().strict_mode,
    {
        CssParser { options: CssParserOptions::default() }
    }

    /// A parser with the given options.
    pub fn with_options(options: CssParserOptions) -> (r: CssParser)
        ensures
            r.spec_options() == options,
    {
        CssParser { options }
    }

    /// Simplified rule extraction: an input mentioning `body` yields one
    /// style rule for it; in strict mode an input yielding no rule is
    /// rejected.
    pub fn parse_css(&self, css: &str) -> (r: VeloraResult<Vec<CssRule>>)
        ensures
            spec_contains(css@, "body"@) ==> r is Ok && r->Ok_0@.len() == 1
                && r->Ok_0@[0].rule_type == CssRuleType::Style && r->Ok_0@[0].selectors@.len() == 1
                && r->Ok_0@[0].properties@.len() == 1,
            !spec_contains(css@, "body"@) && !self.spec_options().strict_mode ==> r is Ok
                && r->Ok_0@.len() == 0,
            !spec_contains(css@, "body"@) && self.spec_options().strict_mode ==> r matches Err(
                VeloraError::Parser(ParserError::CssParsing(_)),
            ),
    {
        let mut rules: Vec<CssRule> = Vec::new();
        if str_contains(css, "body") {
            let mut parts: Vec<SelectorPart> = Vec::new();
            parts.push(SelectorPart::Element("body".to_owned()));
            let mut selectors: Vec<CssSelector> = Vec::new();
            selectors.push(
                CssSelector { specificity: SelectorSpecificity { a: 0, b: 0, c: 1 }, parts },
            );
            let mut properties: Vec<CssProperty> = Vec::new();
            properties.push(
                CssProperty {
                    name: "background-color".to_owned(),
                    value: "#ffffff".to_owned(),
                    important: false,
                    source_position: None,
                },
            );
            rules.push(
                CssRule {
                    rule_type: CssRuleType::Style,
                    selectors,
                    properties,
                    source_position: None,
                },
            );
        }
        if self.options.strict_mode && rules.is_empty() {
            return Err(
                VeloraError::Parser(ParserError::CssParsing("no valid CSS rules found".to_owned())),
            );
        }
        Ok(rules)
    }

    /// Simplified selector parsing: a `#` prefix yields an identifier
    /// selector, a `.` prefix a class selector, `*` the universal selector,
    /// anything else an element selector; the specificity follows the parts.
    pub fn parse_selector(&self, selector: &str) -> (r: VeloraResult<CssSelector>)
        ensures
            r is Ok,
            r->Ok_0.parts@.len() == 1,
            ({
                let spec = spec_specificity(r->Ok_0.parts@);
                r->Ok_0.specificity.a == spec.0 && r->Ok_0.specificity.b == spec.1
                    && r->Ok_0.specificity.c == spec.2
            }),
    {
        let len = selector.unicode_len();
        let mut parts: Vec<SelectorPart> = Vec::new();
        if str_starts_with(selector, "#") {
            proof {
                reveal_strlit("#");
            }
            let stripped = selector.substring_char(1, len);
            parts.push(SelectorPart::Id(stripped.to_owned()));
        } else if str_starts_with(selector, ".") {
            proof {
                reveal_strlit(".");
            }
            let stripped = selector.substring_char(1, len);
            parts.push(SelectorPart::Class(stripped.to_owned()));
        } else if str_eq(selector, "*") {
            parts.push(SelectorPart::Universal);
        } else {
            parts.push(SelectorPart::Element(selector.to_owned()));
        }
        let specificity = calculate_specificity(&parts);
        proof {
            assert(parts@.drop_last() =~= Seq::<SelectorPart>::empty());
        }
        Ok(CssSelector { specificity, parts })
    }
}

impl Default for CssParser {
    /// A parser with default options, as `new`.
    fn default() -> (r: CssParser)
        ensures
            r.spec_options().parse_vendor_prefixes,
            !r.spec_options().strict_mode,
    {
        CssParser::new()
    }
}

/// Accumulates the specificity of a part list.
fn calculate_specificity(parts: &Vec<SelectorPart>) -> (r: SelectorSpecificity)
    requires
        parts@.len() <= 1000,
    ensures
        ({
            let spec = spec_specificity(parts@);
            r.a == spec.0 && r.b == spec.1 && r.c == spec.2
        }),
{
    let mut a: u32 = 0;
    let mut b: u32 = 0;
    let mut c: u32 = 0;
    let n = parts.len();
    let mut i: usize = 0;
    while i < n
        invariant
            n == parts@.len(),
            n <= 1000,
            i <= n,
            a + b + c <= i,
            ({
                let spec = spec_specificity(parts@.subrange(0, i as int));
                a == spec.0 && b == spec.1 && c == spec.2
            }),
        decreases n - i,
    {
        proof {
            assert(parts@.subrange(0, i + 1).drop_last() =~= parts@.subrange(0, i as int));
            assert(parts@.subrange(0, i + 1).last() == parts@[i as int]);
        }
        match &parts[i] {
            SelectorPart::Id(_) => {
                a = a + 1;
            },
            SelectorPart::Class(_) => {
                b = b + 1;
            },
            SelectorPart::Attribute(_, _, _) => {
                b = b + 1;
            },
            SelectorPart::PseudoClass(_) => {
                b = b + 1;
            },
            SelectorPart::Element(_) => {
                c = c + 1;
            },
            SelectorPart::PseudoElement(_) => {
                c = c + 1;
            },
            _ => {},
        }
        i = i + 1;
    }
    proof {
        assert(parts@.subrange(0, n as int) =~= parts@);
    }
    SelectorSpecificity { a, b, c }
}

/// Parsing entry point of the placeholder stylesheet pipeline; accepts every
/// input.
pub fn parse_css(input: &str) -> (r: Result<(), CssError>)
    ensures
        r is Ok,
{
    let _ = input;
    Ok(())
}

/// Error of the placeholder stylesheet pipeline.
#[derive(Debug, Clone, PartialEq)]
pub enum CssError {
    Generic,
}

} // verus!
