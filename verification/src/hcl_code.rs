//! Terraform code as text and as the library's blocks: hcl-rs reads and writes the text. What
//! it reads and writes is named (`hcl_blocks`, `hcl_text`), each a function of its arguments.
use vstd::prelude::*;
use crate::blocks::{block_models, BlockModel, HclBlock};
use crate::resolver::HclExpr;

verus! {

#[verifier::external_type_specification]
#[verifier::external_body]
pub struct ExHclBlock(hcl::Block);

#[verifier::external_type_specification]
#[verifier::external_body]
pub struct ExHclExpression(hcl::Expression);

#[verifier::external_type_specification]
#[verifier::external_body]
pub struct ExHclTraversal(hcl::expr::Traversal);

#[verifier::external_type_specification]
#[verifier::external_body]
pub struct ExHclTemplateExpr(hcl::expr::TemplateExpr);

/// The blocks of a text as hcl-rs reads it (`hcl::parse`), in the library's form: `None`
/// where hcl-rs cannot read the text.
pub uninterp spec fn hcl_blocks(text: Seq<char>) -> Option<Seq<BlockModel>>;

/// The text that hcl-rs writes (`hcl::format::to_string`) for the blocks, heredocs closed by
/// `delimiter`.
pub uninterp spec fn hcl_text(blocks: Seq<BlockModel>, delimiter: Seq<char>) -> Seq<char>;

/// Reads the text with `hcl::parse` and turns each top-level block into the library's form:
/// identifier, labels (`BlockLabel::as_str`), attributes in order and nested blocks; each
/// expression variant by variant (see `expr_of`). Claimed: the result is `hcl_blocks` of the
/// text.
#[verifier::external_body]
fn read_terraform(text: &str) -> (r: Option<Vec<HclBlock>>)
    ensures
        match r {
            Some(bs) => hcl_blocks(text@) == Some(block_models(bs@)),
            None => hcl_blocks(text@) is None,
        },
{
    hcl::parse(text).ok().map(|body| body.blocks().map(block_of).collect())
}

/// Part of `read_terraform`'s conversion: one hcl-rs block.
#[verifier::external_body]
fn block_of(b: &hcl::Block) -> (r: HclBlock) {
    HclBlock {
        identifier: b.identifier().to_string(),
        labels: b.labels().iter().map(|l| l.as_str().to_string()).collect(),
        attributes: b.body().attributes().map(|a| (a.key().to_string(), expr_of(a.expr()))).collect(),
        blocks: b.body().blocks().map(block_of).collect(),
    }
}

/// Part of `read_terraform`'s conversion: an expression, one arm per variant of
/// `hcl::Expression`; a number as its text, a variable as a traversal without attributes, and
/// any other expression as hcl-rs writes it.
#[verifier::external_body]
fn expr_of(e: &hcl::Expression) -> (r: HclExpr) {
    match e {
        hcl::Expression::Null => HclExpr::Null,
        hcl::Expression::Bool(b) => HclExpr::Bool(*b),
        hcl::Expression::Number(n) => HclExpr::Number(n.to_string()),
        hcl::Expression::String(s) => HclExpr::Str(s.clone()),
        hcl::Expression::Array(_) | hcl::Expression::Object(_) => collection_of(e),
        hcl::Expression::TemplateExpr(t) => template_of(t),
        hcl::Expression::Variable(v) => HclExpr::Traversal(v.to_string(), Vec::new()),
        hcl::Expression::Traversal(t) => traversal_of(t, e),
        other => HclExpr::Other(hcl::format::to_string(other).unwrap_or_default()),
    }
}

/// Part of `read_terraform`'s conversion: an array item by item, an object entry by entry
/// (each key as `ObjectKey`'s `Display` writes it).
#[verifier::external_body]
fn collection_of(e: &hcl::Expression) -> (r: HclExpr) {
    match e {
        hcl::Expression::Array(v) => HclExpr::Array(v.iter().map(expr_of).collect()),
        hcl::Expression::Object(m) => HclExpr::Object(m.iter().map(|(k, v)| (k.to_string(), expr_of(v))).collect()),
        other => HclExpr::Other(hcl::format::to_string(other).unwrap_or_default()),
    }
}

/// Part of `read_terraform`'s conversion: a quoted template or a heredoc, as its text.
#[verifier::external_body]
fn template_of(t: &hcl::expr::TemplateExpr) -> (r: HclExpr) {
    match t {
        hcl::expr::TemplateExpr::QuotedString(s) => HclExpr::Quoted(s.clone()),
        hcl::expr::TemplateExpr::Heredoc(h) => HclExpr::Heredoc(h.template.clone()),
    }
}

/// Part of `read_terraform`'s conversion: a traversal of attributes (`GetAttr`) from a
/// variable; any other traversal as hcl-rs writes it.
#[verifier::external_body]
fn traversal_of(t: &hcl::expr::Traversal, e: &hcl::Expression) -> (r: HclExpr) {
    let attrs: Option<Vec<String>> = t.operators.iter().map(|op| match op {
        hcl::expr::TraversalOperator::GetAttr(id) => Some(id.to_string()),
        _ => None,
    }).collect();
    match (&t.expr, attrs) {
        (hcl::Expression::Variable(v), Some(attrs)) => HclExpr::Traversal(v.to_string(), attrs),
        _ => HclExpr::Other(hcl::format::to_string(e).unwrap_or_default()),
    }
}

/// Writes the blocks with `hcl::format::to_string` (empty where it cannot), once each is
/// built as an hcl-rs block (see `hcl_block_of`). Claimed: the result is `hcl_text` of the
/// blocks and the delimiter.
#[verifier::external_body]
fn write_terraform(blocks: &Vec<HclBlock>, delimiter: &str) -> (r: String)
    ensures
        r@ == hcl_text(block_models(blocks@), delimiter@),
{
    let built: Vec<hcl::Block> = blocks.iter().map(|b| hcl_block_of(b, delimiter)).collect();
    hcl::format::to_string(&hcl::Body::from(built)).unwrap_or_default()
}

/// Part of `write_terraform`'s conversion: a block with `Block::builder`, labels as strings.
#[verifier::external_body]
fn hcl_block_of(b: &HclBlock, delimiter: &str) -> (r: hcl::Block) {
    hcl::Block::builder(b.identifier.clone())
        .add_labels(b.labels.clone())
        .add_attributes(b.attributes.iter().map(|(k, e)| (k.clone(), hcl_expr_of(e, delimiter))))
        .add_blocks(b.blocks.iter().map(|x| hcl_block_of(x, delimiter)))
        .build()
}

/// Part of `write_terraform`'s conversion: an expression, one arm per variant of `HclExpr`; a
/// number or any other expression read from its text, a string where hcl-rs cannot read it.
#[verifier::external_body]
fn hcl_expr_of(e: &HclExpr, delimiter: &str) -> (r: hcl::Expression) {
    match e {
        HclExpr::Null => hcl::Expression::Null,
        HclExpr::Bool(b) => hcl::Expression::Bool(*b),
        HclExpr::Str(s) => hcl::Expression::String(s.clone()),
        HclExpr::Number(t) | HclExpr::Other(t) => t.parse().unwrap_or_else(|_| hcl::Expression::String(t.clone())),
        HclExpr::Quoted(s) => hcl::expr::TemplateExpr::QuotedString(s.clone()).into(),
        HclExpr::Heredoc(s) => hcl::expr::TemplateExpr::Heredoc(hcl::expr::Heredoc::new(hcl::Identifier::unchecked(delimiter), s.clone())).into(),
        _ => hcl_composite_of(e, delimiter),
    }
}

/// Part of `write_terraform`'s conversion: a traversal of attributes from a variable
/// (`Variable::unchecked`, `GetAttr`), an array item by item, an object entry by entry (each
/// key an `Identifier::unchecked`).
#[verifier::external_body]
fn hcl_composite_of(e: &HclExpr, delimiter: &str) -> (r: hcl::Expression) {
    match e {
        HclExpr::Traversal(root, attrs) => hcl::expr::Traversal::new(
            hcl::expr::Variable::unchecked(root.clone()),
            attrs.iter().map(|a| hcl::expr::TraversalOperator::GetAttr(hcl::Identifier::unchecked(a.clone()))),
        ).into(),
        HclExpr::Array(v) => hcl::Expression::Array(v.iter().map(|x| hcl_expr_of(x, delimiter)).collect()),
        HclExpr::Object(m) => hcl::Expression::Object(m.iter().map(|(k, v)| (hcl::ObjectKey::Identifier(hcl::Identifier::unchecked(k.clone())), hcl_expr_of(v, delimiter))).collect()),
        _ => hcl::Expression::Null,
    }
}

/// The blocks of a Terraform text as hcl-rs reads it (`hcl_blocks`), or `None` where it
/// cannot read the text.
pub fn parse_terraform(text: &str) -> (r: Option<Vec<HclBlock>>)
    ensures
        match r {
            Some(bs) => hcl_blocks(text@) == Some(block_models(bs@)),
            None => hcl_blocks(text@) is None,
        },
{
    read_terraform(text)
}

/// The delimiter that closes the heredocs the library writes.
pub open spec fn heredoc_delimiter() -> Seq<char> {
    "EOF"@
}

/// The Terraform text of the blocks as hcl-rs writes it (`hcl_text`), heredocs closed by
/// `EOF`.
pub fn format_terraform(blocks: &Vec<HclBlock>) -> (r: String)
    ensures
        r@ == hcl_text(block_models(blocks@), heredoc_delimiter()),
{
    write_terraform(blocks, "EOF")
}

} // verus!
