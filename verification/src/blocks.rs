//! Terraform (HCL) blocks as plain data, with the mathematical model that contracts speak of,
//! and verified copies and comparisons of expressions and blocks.
use vstd::prelude::*;
use crate::resolver::HclExpr;

verus! {

/// The data of an HCL expression.
pub enum ExprModel {
    Null,
    Bool(bool),
    Number(Seq<char>),
    Str(Seq<char>),
    Traversal(Seq<char>, Seq<Seq<char>>),
    Quoted(Seq<char>),
    Heredoc(Seq<char>),
    Array(Seq<ExprModel>),
    Object(Seq<(Seq<char>, ExprModel)>),
    Other(Seq<char>),
}

pub open spec fn strs_model(v: Seq<String>) -> Seq<Seq<char>> {
    v.map_values(|s: String| s@)
}

/// The data of an expression.
pub open spec fn expr_model(e: HclExpr) -> ExprModel
    decreases e,
{
    match e {
        HclExpr::Null => ExprModel::Null,
        HclExpr::Bool(b) => ExprModel::Bool(b),
        HclExpr::Number(n) => ExprModel::Number(n@),
        HclExpr::Str(s) => ExprModel::Str(s@),
        HclExpr::Traversal(root, attrs) => ExprModel::Traversal(root@, strs_model(attrs@)),
        HclExpr::Quoted(t) => ExprModel::Quoted(t@),
        HclExpr::Heredoc(t) => ExprModel::Heredoc(t@),
        HclExpr::Array(items) => ExprModel::Array(expr_models(items@)),
        HclExpr::Object(entries) => ExprModel::Object(attr_models(entries@)),
        HclExpr::Other(t) => ExprModel::Other(t@),
    }
}

pub open spec fn expr_models(items: Seq<HclExpr>) -> Seq<ExprModel>
    decreases items,
{
    if items.len() == 0 {
        Seq::empty()
    } else {
        expr_models(items.drop_last()).push(expr_model(items.last()))
    }
}

/// The data of attributes (or object entries): each key with its expression.
pub open spec fn attr_models(entries: Seq<(String, HclExpr)>) -> Seq<(Seq<char>, ExprModel)>
    decreases entries,
{
    if entries.len() == 0 {
        Seq::empty()
    } else {
        attr_models(entries.drop_last()).push((entries.last().0@, expr_model(entries.last().1)))
    }
}

pub proof fn lemma_expr_models(items: Seq<HclExpr>)
    ensures
        expr_models(items).len() == items.len(),
        forall|i: int| 0 <= i < items.len() ==> #[trigger] expr_models(items)[i] == expr_model(items[i]),
    decreases items.len(),
{
    if items.len() > 0 {
        lemma_expr_models(items.drop_last());
    }
}

pub proof fn lemma_attr_models(entries: Seq<(String, HclExpr)>)
    ensures
        attr_models(entries).len() == entries.len(),
        forall|i: int| 0 <= i < entries.len() ==> #[trigger] attr_models(entries)[i] == (entries[i].0@, expr_model(entries[i].1)),
    decreases entries.len(),
{
    if entries.len() > 0 {
        lemma_attr_models(entries.drop_last());
    }
}

/// An HCL block: its identifier, its labels, and its body: attributes, then nested blocks.
#[derive(Debug)]
pub struct HclBlock {
    pub identifier: String,
    pub labels: Vec<String>,
    pub attributes: Vec<(String, HclExpr)>,
    pub blocks: Vec<HclBlock>,
}

/// The data of a block.
pub struct BlockModel {
    pub identifier: Seq<char>,
    pub labels: Seq<Seq<char>>,
    pub attributes: Seq<(Seq<char>, ExprModel)>,
    pub blocks: Seq<BlockModel>,
}

pub open spec fn block_model(b: HclBlock) -> BlockModel
    decreases b,
{
    BlockModel {
        identifier: b.identifier@,
        labels: strs_model(b.labels@),
        attributes: attr_models(b.attributes@),
        blocks: block_models(b.blocks@),
    }
}

pub open spec fn block_models(bs: Seq<HclBlock>) -> Seq<BlockModel>
    decreases bs,
{
    if bs.len() == 0 {
        Seq::empty()
    } else {
        block_models(bs.drop_last()).push(block_model(bs.last()))
    }
}

pub proof fn lemma_block_models(bs: Seq<HclBlock>)
    ensures
        block_models(bs).len() == bs.len(),
        forall|i: int| 0 <= i < bs.len() ==> #[trigger] block_models(bs)[i] == block_model(bs[i]),
    decreases bs.len(),
{
    if bs.len() > 0 {
        lemma_block_models(bs.drop_last());
    }
}

pub fn copy_strings(v: &Vec<String>) -> (r: Vec<String>)
    ensures
        strs_model(r@) == strs_model(v@),
{
    let mut out: Vec<String> = Vec::new();
    let mut i: usize = 0;
    while i < v.len()
        invariant
            i <= v@.len(),
            out@.len() == i,
            forall|j: int| 0 <= j < i ==> (#[trigger] out@[j])@ == v@[j]@,
        decreases v.len() - i,
    {
        out.push(v[i].clone());
        i = i + 1;
    }
    assert(strs_model(out@) =~= strs_model(v@));
    out
}

/// A copy of an expression.
pub fn copy_expr(e: &HclExpr) -> (r: HclExpr)
    ensures
        expr_model(r) == expr_model(*e),
    decreases e, 1nat,
{
    match e {
        HclExpr::Null => HclExpr::Null,
        HclExpr::Bool(b) => HclExpr::Bool(*b),
        HclExpr::Number(n) => HclExpr::Number(n.clone()),
        HclExpr::Str(s) => HclExpr::Str(s.clone()),
        HclExpr::Traversal(root, attrs) => HclExpr::Traversal(root.clone(), copy_strings(attrs)),
        HclExpr::Quoted(t) => HclExpr::Quoted(t.clone()),
        HclExpr::Heredoc(t) => HclExpr::Heredoc(t.clone()),
        HclExpr::Other(t) => HclExpr::Other(t.clone()),
        HclExpr::Array(items) => {
            let mut out: Vec<HclExpr> = Vec::new();
            let mut i: usize = 0;
            while i < items.len()
                invariant
                    i <= items@.len(),
                    *e == HclExpr::Array(*items),
                    expr_models(out@) == expr_models(items@.take(i as int)),
                decreases items.len() - i,
            {
                proof {
                    assert(decreases_to!(*e => (*e)->Array_0));
                    assert(decreases_to!((*e)->Array_0 => (*e)->Array_0@));
                    assert(decreases_to!((*e)->Array_0@ => items@[i as int]));
                }
                let c = copy_expr(&items[i]);
                let ghost prev = out@;
                out.push(c);
                assert(out@.drop_last() =~= prev);
                assert(items@.take(i + 1).drop_last() =~= items@.take(i as int));
                i = i + 1;
            }
            assert(items@.take(items@.len() as int) =~= items@);
            HclExpr::Array(out)
        },
        HclExpr::Object(entries) => {
            let out = copy_attrs_of(e, entries);
            HclExpr::Object(out)
        },
    }
}

fn copy_attrs_of(e: &HclExpr, entries: &Vec<(String, HclExpr)>) -> (r: Vec<(String, HclExpr)>)
    requires
        *e == HclExpr::Object(*entries),
    ensures
        attr_models(r@) == attr_models(entries@),
    decreases e, 0nat,
{
    let mut out: Vec<(String, HclExpr)> = Vec::new();
    let mut i: usize = 0;
    while i < entries.len()
        invariant
            i <= entries@.len(),
            *e == HclExpr::Object(*entries),
            attr_models(out@) == attr_models(entries@.take(i as int)),
        decreases entries.len() - i,
    {
        proof {
            assert(decreases_to!(*e => (*e)->Object_0));
            assert(decreases_to!((*e)->Object_0 => (*e)->Object_0@));
            assert(decreases_to!((*e)->Object_0@ => entries@[i as int]));
            assert(decreases_to!(entries@[i as int] => entries@[i as int].1));
        }
        let c = copy_expr(&entries[i].1);
        let ghost prev = out@;
        out.push((entries[i].0.clone(), c));
        assert(out@.drop_last() =~= prev);
        assert(entries@.take(i + 1).drop_last() =~= entries@.take(i as int));
        i = i + 1;
    }
    assert(entries@.take(entries@.len() as int) =~= entries@);
    out
}


/// Whether two lists of strings are the same.
pub fn strings_equal(a: &Vec<String>, b: &Vec<String>) -> (r: bool)
    ensures
        r == (strs_model(a@) == strs_model(b@)),
{
    if a.len() != b.len() {
        assert(strs_model(a@).len() != strs_model(b@).len());
        return false;
    }
    let mut i: usize = 0;
    while i < a.len()
        invariant
            a@.len() == b@.len(),
            i <= a@.len(),
            forall|j: int| 0 <= j < i ==> (#[trigger] a@[j])@ == b@[j]@,
        decreases a.len() - i,
    {
        if a[i] != b[i] {
            assert(strs_model(a@)[i as int] != strs_model(b@)[i as int]);
            return false;
        }
        i = i + 1;
    }
    assert(strs_model(a@) =~= strs_model(b@));
    true
}

/// Whether two expressions hold the same data.
pub fn exprs_equal(a: &HclExpr, b: &HclExpr) -> (r: bool)
    ensures
        r == (expr_model(*a) == expr_model(*b)),
    decreases a, 1nat,
{
    match (a, b) {
        (HclExpr::Null, HclExpr::Null) => true,
        (HclExpr::Bool(x), HclExpr::Bool(y)) => *x == *y,
        (HclExpr::Number(x), HclExpr::Number(y)) => *x == *y,
        (HclExpr::Str(x), HclExpr::Str(y)) => *x == *y,
        (HclExpr::Traversal(r1, a1), HclExpr::Traversal(r2, a2)) => *r1 == *r2 && strings_equal(a1, a2),
        (HclExpr::Quoted(x), HclExpr::Quoted(y)) => *x == *y,
        (HclExpr::Heredoc(x), HclExpr::Heredoc(y)) => *x == *y,
        (HclExpr::Other(x), HclExpr::Other(y)) => *x == *y,
        (HclExpr::Array(xs), HclExpr::Array(ys)) => {
            proof {
                lemma_expr_models(xs@);
                lemma_expr_models(ys@);
            }
            assert(expr_model(*a) == ExprModel::Array(expr_models(xs@)));
            assert(expr_model(*b) == ExprModel::Array(expr_models(ys@)));
            if xs.len() != ys.len() {
                assert(expr_models(xs@).len() != expr_models(ys@).len());
                return false;
            }
            let mut i: usize = 0;
            while i < xs.len()
                invariant
                    *a == HclExpr::Array(*xs),
                    *b == HclExpr::Array(*ys),
                    xs@.len() == ys@.len(),
                    expr_models(xs@).len() == xs@.len(),
                    expr_models(ys@).len() == ys@.len(),
                    forall|j: int| 0 <= j < xs@.len() ==> #[trigger] expr_models(xs@)[j] == expr_model(xs@[j]),
                    forall|j: int| 0 <= j < ys@.len() ==> #[trigger] expr_models(ys@)[j] == expr_model(ys@[j]),
                    i <= xs@.len(),
                    forall|j: int| 0 <= j < i ==> expr_model(#[trigger] xs@[j]) == expr_model(ys@[j]),
                decreases xs.len() - i,
            {
                proof {
                    assert(decreases_to!(*a => (*a)->Array_0));
                    assert(decreases_to!((*a)->Array_0 => (*a)->Array_0@));
                    assert(decreases_to!((*a)->Array_0@ => xs@[i as int]));
                }
                if !exprs_equal(&xs[i], &ys[i]) {
                    assert(expr_models(xs@)[i as int] != expr_models(ys@)[i as int]);
                    return false;
                }
                i = i + 1;
            }
            assert(expr_models(xs@) =~= expr_models(ys@));
            true
        },
        (HclExpr::Object(xs), HclExpr::Object(ys)) => attrs_equal_of(a, xs, ys),
        _ => false,
    }
}

fn attrs_equal_of(a: &HclExpr, xs: &Vec<(String, HclExpr)>, ys: &Vec<(String, HclExpr)>) -> (r: bool)
    requires
        *a == HclExpr::Object(*xs),
    ensures
        r == (attr_models(xs@) == attr_models(ys@)),
    decreases a, 0nat,
{
    proof {
        lemma_attr_models(xs@);
        lemma_attr_models(ys@);
    }
    if xs.len() != ys.len() {
        assert(attr_models(xs@).len() != attr_models(ys@).len());
        return false;
    }
    let mut i: usize = 0;
    while i < xs.len()
        invariant
            *a == HclExpr::Object(*xs),
            xs@.len() == ys@.len(),
            attr_models(xs@).len() == xs@.len(),
            attr_models(ys@).len() == ys@.len(),
            forall|j: int| 0 <= j < xs@.len() ==> #[trigger] attr_models(xs@)[j] == (xs@[j].0@, expr_model(xs@[j].1)),
            forall|j: int| 0 <= j < ys@.len() ==> #[trigger] attr_models(ys@)[j] == (ys@[j].0@, expr_model(ys@[j].1)),
            i <= xs@.len(),
            forall|j: int| 0 <= j < i ==> #[trigger] attr_models(xs@)[j] == attr_models(ys@)[j],
        decreases xs.len() - i,
    {
        proof {
            assert(decreases_to!(*a => (*a)->Object_0));
            assert(decreases_to!((*a)->Object_0 => (*a)->Object_0@));
            assert(decreases_to!((*a)->Object_0@ => xs@[i as int]));
            assert(decreases_to!(xs@[i as int] => xs@[i as int].1));
        }
        if xs[i].0 != ys[i].0 {
            assert(attr_models(xs@)[i as int] != attr_models(ys@)[i as int]);
            return false;
        }
        if !exprs_equal(&xs[i].1, &ys[i].1) {
            assert(attr_models(xs@)[i as int] != attr_models(ys@)[i as int]);
            return false;
        }
        i = i + 1;
    }
    assert(attr_models(xs@) =~= attr_models(ys@));
    true
}

/// A copy of attributes (or object entries).
pub fn copy_attrs(entries: &Vec<(String, HclExpr)>) -> (r: Vec<(String, HclExpr)>)
    ensures
        attr_models(r@) == attr_models(entries@),
{
    let mut out: Vec<(String, HclExpr)> = Vec::new();
    let mut i: usize = 0;
    while i < entries.len()
        invariant
            i <= entries@.len(),
            attr_models(out@) == attr_models(entries@.take(i as int)),
        decreases entries.len() - i,
    {
        let c = copy_expr(&entries[i].1);
        let ghost prev = out@;
        out.push((entries[i].0.clone(), c));
        assert(out@.drop_last() =~= prev);
        assert(entries@.take(i + 1).drop_last() =~= entries@.take(i as int));
        i = i + 1;
    }
    assert(entries@.take(entries@.len() as int) =~= entries@);
    out
}

/// A copy of a block.
pub fn copy_block(b: &HclBlock) -> (r: HclBlock)
    ensures
        block_model(r) == block_model(*b),
    decreases b,
{
    let mut blocks: Vec<HclBlock> = Vec::new();
    let mut i: usize = 0;
    while i < b.blocks.len()
        invariant
            i <= b.blocks@.len(),
            block_models(blocks@) == block_models(b.blocks@.take(i as int)),
        decreases b.blocks.len() - i,
    {
        proof {
            assert(decreases_to!(*b => b.blocks));
            assert(decreases_to!(b.blocks => b.blocks@));
            assert(decreases_to!(b.blocks@ => b.blocks@[i as int]));
        }
        let c = copy_block(&b.blocks[i]);
        let ghost prev = blocks@;
        blocks.push(c);
        assert(blocks@.drop_last() =~= prev);
        assert(b.blocks@.take(i + 1).drop_last() =~= b.blocks@.take(i as int));
        i = i + 1;
    }
    assert(b.blocks@.take(b.blocks@.len() as int) =~= b.blocks@);
    HclBlock {
        identifier: b.identifier.clone(),
        labels: copy_strings(&b.labels),
        attributes: copy_attrs(&b.attributes),
        blocks,
    }
}

/// Copies of blocks.
pub fn copy_blocks(bs: &Vec<HclBlock>) -> (r: Vec<HclBlock>)
    ensures
        block_models(r@) == block_models(bs@),
{
    let mut out: Vec<HclBlock> = Vec::new();
    let mut i: usize = 0;
    while i < bs.len()
        invariant
            i <= bs@.len(),
            block_models(out@) == block_models(bs@.take(i as int)),
        decreases bs.len() - i,
    {
        let c = copy_block(&bs[i]);
        let ghost prev = out@;
        out.push(c);
        assert(out@.drop_last() =~= prev);
        assert(bs@.take(i + 1).drop_last() =~= bs@.take(i as int));
        i = i + 1;
    }
    assert(bs@.take(bs@.len() as int) =~= bs@);
    out
}


/// Adds an attribute at the end.
pub fn push_attr(m: &mut Vec<(String, HclExpr)>, key: String, e: HclExpr)
    ensures
        attr_models(final(m)@) == attr_models(old(m)@).push((key@, expr_model(e))),
{
    let ghost before = m@;
    m.push((key, e));
    assert(m@.drop_last() =~= before);
}

/// Adds copies of attributes at the end.
pub fn append_attrs(out: &mut Vec<(String, HclExpr)>, attrs: &Vec<(String, HclExpr)>)
    ensures
        attr_models(final(out)@) == attr_models(old(out)@) + attr_models(attrs@),
{
    let ghost base = attr_models(out@);
    let mut i: usize = 0;
    while i < attrs.len()
        invariant
            i <= attrs@.len(),
            attr_models(out@) == base + attr_models(attrs@.take(i as int)),
        decreases attrs.len() - i,
    {
        let c = copy_expr(&attrs[i].1);
        push_attr(out, attrs[i].0.clone(), c);
        assert(attrs@.take(i + 1).drop_last() =~= attrs@.take(i as int));
        assert(base + attr_models(attrs@.take(i + 1)) =~= (base + attr_models(attrs@.take(i as int))).push(
            (attrs@[i as int].0@, expr_model(attrs@[i as int].1)),
        ));
        i = i + 1;
    }
    assert(attrs@.take(attrs@.len() as int) =~= attrs@);
}

} // verus!
