//! Conditions over single detector numbers, with `or` and `and` of any
//! number of operands.
//!
//! The constructors [`Expr::or`] and [`Expr::and`] keep such a tree flat: an
//! `or` directly below an `or` is dissolved into it, and likewise for `and`.

use vstd::prelude::*;
use vstd::string::*;
use crate::text::{decimal, decimal_string};

verus! {

/// A condition over single detector numbers.
#[derive(Debug, PartialEq, Eq)]
pub enum Expr {
    /// One detector.
    Number(u32),
    /// At least one of the operands.
    Or(Vec<Expr>),
    /// All of the operands.
    And(Vec<Expr>),
}

/// The operands of `children`, in order, with each operand that is itself
/// an `and` (if `and` is set) or an `or` (if it is not) replaced by its own
/// operands. Only one level is dissolved.
pub open spec fn flattened(children: Seq<Expr>, and: bool) -> Seq<Expr>
    decreases children.len(),
{
    if children.len() == 0 {
        Seq::empty()
    } else {
        flattened(children.drop_last(), and) + operands(children.last(), and)
    }
}

/// What `child` contributes to the operands of its parent.
pub open spec fn operands(child: Expr, and: bool) -> Seq<Expr> {
    match child {
        Expr::Or(inner) if !and => inner@,
        Expr::And(inner) if and => inner@,
        other => seq![other],
    }
}

/// What the constructors make of the flattened operands `flat`: the single
/// operand itself where there is exactly one, and else the `and` or the `or`
/// of them.
pub open spec fn is_joined(r: Expr, flat: Seq<Expr>, and: bool) -> bool {
    if flat.len() == 1 {
        r == flat[0]
    } else if and {
        r matches Expr::And(v) && v@ == flat
    } else {
        r matches Expr::Or(v) && v@ == flat
    }
}

/// Whether `expr` is flat: no `or` has an `or` among its operands and no
/// `and` has an `and`, anywhere in the tree.
pub open spec fn is_flat(expr: Expr) -> bool
    decreases expr,
{
    match expr {
        Expr::Number(_) => true,
        Expr::Or(v) => {
            proof {
                broadcast use vstd::std_specs::vec::axiom_vec_decreases_to_view;
                broadcast use vstd::seq::axiom_seq_index_decreases;

            }
            forall|i: int| 0 <= i < v@.len() ==> !(#[trigger] v@[i] is Or) && is_flat(v@[i])
        },
        Expr::And(v) => {
            proof {
                broadcast use vstd::std_specs::vec::axiom_vec_decreases_to_view;
                broadcast use vstd::seq::axiom_seq_index_decreases;

            }
            forall|i: int| 0 <= i < v@.len() ==> !(#[trigger] v@[i] is And) && is_flat(v@[i])
        },
    }
}

/// Every one of `children` is flat.
pub open spec fn all_flat(children: Seq<Expr>) -> bool {
    forall|i: int| 0 <= i < children.len() ==> is_flat(#[trigger] children[i])
}

/// Flat operands stay flat when one level is dissolved, and none of those
/// that are left is of the kind that was dissolved.
pub proof fn lemma_flattened_is_flat(children: Seq<Expr>, and: bool)
    requires
        all_flat(children),
    ensures
        all_flat(flattened(children, and)),
        forall|i: int|
            0 <= i < flattened(children, and).len() ==> if and {
                !(#[trigger] flattened(children, and)[i] is And)
            } else {
                !(flattened(children, and)[i] is Or)
            },
    decreases children.len(),
{
    if children.len() > 0 {
        let head = flattened(children.drop_last(), and);
        let tail = operands(children.last(), and);
        lemma_flattened_is_flat(children.drop_last(), and);
        assert(is_flat(children.last()));
        let whole = flattened(children, and);
        assert forall|i: int| 0 <= i < whole.len() implies is_flat(#[trigger] whole[i]) && if and {
            !(whole[i] is And)
        } else {
            !(whole[i] is Or)
        } by {
            if i < head.len() {
                assert(whole[i] == head[i]);
            } else {
                assert(whole[i] == tail[i - head.len()]);
            }
        }
    }
}

/// The constructors keep flat what is flat: of flat operands [`Expr::or`] and
/// [`Expr::and`] make a flat condition.
pub proof fn lemma_joined_is_flat(r: Expr, children: Seq<Expr>, and: bool)
    requires
        all_flat(children),
        is_joined(r, flattened(children, and), and),
    ensures
        is_flat(r),
{
    lemma_flattened_is_flat(children, and);
    let flat = flattened(children, and);
    if flat.len() == 1 {
        assert(is_flat(flat[0]));
    }
}

/// Whether `a` and `b` are the same tree: the same numbers under the same
/// operators in the same order.
pub open spec fn same_tree(a: Expr, b: Expr) -> bool
    decreases a,
{
    match (a, b) {
        (Expr::Number(m), Expr::Number(n)) => m == n,
        (Expr::Or(v), Expr::Or(w)) => {
            proof {
                broadcast use vstd::std_specs::vec::axiom_vec_decreases_to_view;
                broadcast use vstd::seq::axiom_seq_index_decreases;

            }
            v@.len() == w@.len() && forall|i: int|
                0 <= i < v@.len() ==> same_tree(#[trigger] v@[i], w@[i])
        },
        (Expr::And(v), Expr::And(w)) => {
            proof {
                broadcast use vstd::std_specs::vec::axiom_vec_decreases_to_view;
                broadcast use vstd::seq::axiom_seq_index_decreases;

            }
            v@.len() == w@.len() && forall|i: int|
                0 <= i < v@.len() ==> same_tree(#[trigger] v@[i], w@[i])
        },
        _ => false,
    }
}

/// The texts of `children`, with `between` between one and the next.
pub open spec fn joined_text(children: Seq<Expr>, between: Seq<char>) -> Seq<char>
    decreases children, 0int,
{
    if children.len() == 0 {
        Seq::empty()
    } else if children.len() == 1 {
        proof {
            broadcast use vstd::seq::axiom_seq_index_decreases;

        }
        children[0].text()
    } else {
        proof {
            broadcast use vstd::seq::axiom_seq_index_decreases;
            broadcast use vstd::seq::axiom_seq_subrange_decreases;

        }
        joined_text(children.drop_last(), between) + between + children.last().text()
    }
}

/// The same tree is written as the same text.
pub proof fn lemma_same_tree_same_text(a: Expr, b: Expr)
    requires
        same_tree(a, b),
    ensures
        a.text() == b.text(),
    decreases a, 1int,
{
    match (a, b) {
        (Expr::Or(v), Expr::Or(w)) => {
            broadcast use vstd::std_specs::vec::axiom_vec_decreases_to_view;

            lemma_same_trees_same_text(v@, w@, " or "@);
        },
        (Expr::And(v), Expr::And(w)) => {
            broadcast use vstd::std_specs::vec::axiom_vec_decreases_to_view;

            lemma_same_trees_same_text(v@, w@, " and "@);
        },
        _ => {},
    }
}

/// The same trees, one by one, are joined to the same text.
proof fn lemma_same_trees_same_text(a: Seq<Expr>, b: Seq<Expr>, between: Seq<char>)
    requires
        a.len() == b.len(),
        forall|i: int| 0 <= i < a.len() ==> same_tree(#[trigger] a[i], b[i]),
    ensures
        joined_text(a, between) == joined_text(b, between),
    decreases a, 0int,
{
    broadcast use vstd::seq::axiom_seq_index_decreases;
    broadcast use vstd::seq::axiom_seq_subrange_decreases;

    if a.len() == 1 {
        lemma_same_tree_same_text(a[0], b[0]);
    } else if a.len() > 1 {
        lemma_same_trees_same_text(a.drop_last(), b.drop_last(), between);
        lemma_same_tree_same_text(a.last(), b.last());
    }
}

impl Expr {
    /// The condition as text: a number as `ddr(D<n>)`, an `or` or an `and` as
    /// its operands joined by ` or ` or ` and `, the whole in parentheses.
    pub open spec fn text(self) -> Seq<char>
        decreases self, 1int,
    {
        match self {
            Expr::Number(n) => "ddr(D"@ + decimal(n as nat) + ")"@,
            Expr::Or(children) => {
                proof {
                    broadcast use vstd::std_specs::vec::axiom_vec_decreases_to_view;

                }
                "("@ + joined_text(children@, " or "@) + ")"@
            },
            Expr::And(children) => {
                proof {
                    broadcast use vstd::std_specs::vec::axiom_vec_decreases_to_view;

                }
                "("@ + joined_text(children@, " and "@) + ")"@
            },
        }
    }

    /// A copy of `self`: the same tree, in vectors of its own.
    pub fn duplicate(&self) -> (r: Expr)
        ensures
            same_tree(r, *self),
        decreases *self, 1int,
    {
        match self {
            Expr::Number(n) => Expr::Number(*n),
            Expr::Or(children) => Expr::Or(duplicate_children(self, children)),
            Expr::And(children) => Expr::And(duplicate_children(self, children)),
        }
    }

    /// The condition that is one detector.
    pub fn number(n: u32) -> (r: Expr)
        ensures
            r == Expr::Number(n),
    {
        Expr::Number(n)
    }

    /// The `or` of `children`, flattened. A single operand is returned as it is.
    pub fn or(children: Vec<Expr>) -> (r: Expr)
        ensures
            is_joined(r, flattened(children@, false), false),
            all_flat(children@) ==> is_flat(r),
    {
        let ghost given = children@;
        let mut flat = flatten(children, false);
        let r = if flat.len() == 1 {
            match flat.pop() {
                Some(only) => only,
                None => Expr::Or(flat),
            }
        } else {
            Expr::Or(flat)
        };
        proof {
            if all_flat(given) {
                lemma_joined_is_flat(r, given, false);
            }
        }
        r
    }

    /// The `and` of `children`, flattened. A single operand is returned as it is.
    pub fn and(children: Vec<Expr>) -> (r: Expr)
        ensures
            is_joined(r, flattened(children@, true), true),
            all_flat(children@) ==> is_flat(r),
    {
        let ghost given = children@;
        let mut flat = flatten(children, true);
        let r = if flat.len() == 1 {
            match flat.pop() {
                Some(only) => only,
                None => Expr::And(flat),
            }
        } else {
            Expr::And(flat)
        };
        proof {
            if all_flat(given) {
                lemma_joined_is_flat(r, given, true);
            }
        }
        r
    }

    /// Writes the condition out.
    pub fn to_ddr_string(&self) -> (r: String)
        ensures
            r@ == self.text(),
        decreases *self, 1int,
    {
        match self {
            Expr::Number(n) => {
                let mut r = "ddr(D".to_owned();
                r.append(decimal_string(*n as u64).as_str());
                r.append(")");
                r
            },
            Expr::Or(children) => {
                let mut r = "(".to_owned();
                r.append(join_children(self, children, " or ").as_str());
                r.append(")");
                r
            },
            Expr::And(children) => {
                let mut r = "(".to_owned();
                r.append(join_children(self, children, " and ").as_str());
                r.append(")");
                r
            },
        }
    }
}

/// Copies of the operands `children` of `parent`.
fn duplicate_children(parent: &Expr, children: &Vec<Expr>) -> (r: Vec<Expr>)
    requires
        *parent == Expr::Or(*children) || *parent == Expr::And(*children),
    ensures
        r@.len() == children@.len(),
        forall|i: int| 0 <= i < r@.len() ==> same_tree(#[trigger] r@[i], children@[i]),
    decreases *parent, 0int,
{
    let mut r: Vec<Expr> = Vec::new();
    let mut i: usize = 0;
    while i < children.len()
        invariant
            i <= children@.len(),
            r@.len() == i,
            *parent == Expr::Or(*children) || *parent == Expr::And(*children),
            forall|k: int| 0 <= k < i ==> same_tree(#[trigger] r@[k], children@[k]),
        decreases children@.len() - i,
    {
        proof {
            broadcast use vstd::std_specs::vec::axiom_vec_index_decreases;

            assert(decreases_to!(*children => children[i as int]));
            if *parent is Or {
                assert(decreases_to!(*parent => parent->Or_0));
            } else {
                assert(decreases_to!(*parent => parent->And_0));
            }
        }
        r.push(children[i].duplicate());
        i += 1;
    }
    r
}

/// Dissolves one level of `or` (or of `and`) among `children`.
fn flatten(children: Vec<Expr>, and: bool) -> (flat: Vec<Expr>)
    ensures
        flat@ == flattened(children@, and),
{
    let ghost all = children@;
    let mut flat: Vec<Expr> = Vec::new();
    for child in it: children
        invariant
            it.seq() == all,
            flat@ == flattened(all.take(it.index() as int), and),
    {
        let ghost before = flat@;
        proof {
            let taken = all.take(it.index() + 1);
            assert(taken.drop_last() =~= all.take(it.index() as int));
            assert(taken.last() == child);
        }
        match child {
            Expr::Or(mut inner) if !and => {
                flat.append(&mut inner);
            },
            Expr::And(mut inner) if and => {
                flat.append(&mut inner);
            },
            other => {
                flat.push(other);
                assert(flat@ =~= before + seq![other]);
            },
        }
    }
    proof {
        assert(all.take(all.len() as int) =~= all);
    }
    flat
}

/// The texts of the operands `children` of `parent`, joined by `between`.
fn join_children(parent: &Expr, children: &Vec<Expr>, between: &str) -> (r: String)
    requires
        *parent == Expr::Or(*children) || *parent == Expr::And(*children),
    ensures
        r@ == joined_text(children@, between@),
    decreases *parent, 0int,
{
    let mut r = String::new();
    let mut i: usize = 0;
    while i < children.len()
        invariant
            i <= children@.len(),
            *parent == Expr::Or(*children) || *parent == Expr::And(*children),
            r@ == joined_text(children@.take(i as int), between@),
        decreases children@.len() - i,
    {
        let ghost before = r@;
        if i > 0 {
            r.append(between);
        }
        proof {
            broadcast use vstd::std_specs::vec::axiom_vec_index_decreases;

            assert(decreases_to!(*children => children[i as int]));
            if *parent is Or {
                assert(decreases_to!(*parent => parent->Or_0));
            } else {
                assert(decreases_to!(*parent => parent->And_0));
            }
        }
        r.append(children[i].to_ddr_string().as_str());
        proof {
            let taken = children@.take(i + 1);
            assert(taken.drop_last() =~= children@.take(i as int));
            assert(taken.last() == children@[i as int]);
            if i > 0 {
                assert(r@ =~= before + between@ + children@[i as int].text());
            } else {
                assert(r@ =~= children@[i as int].text());
            }
        }
        i += 1;
    }
    proof {
        assert(children@.take(children@.len() as int) =~= children@);
    }
    r
}

impl Clone for Expr {
    fn clone(&self) -> (r: Expr)
        ensures
            same_tree(r, *self),
    {
        self.duplicate()
    }
}

} // verus!
