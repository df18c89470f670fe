//! Brace initializers and their flattening onto one field name.
use vstd::prelude::*;
use crate::expr::{CExpression, ExprV, MyExpression, simplify, transform};

verus! {

/// An initializer: one expression, or a brace list of initializers. Any
/// designator on a list element is not kept: elements are matched by position.
#[derive(Debug)]
pub enum CInitializer {
    Expression(CExpression),
    List(Vec<CInitializer>),
}

/// A field name bound to a simplified expression, as text.
pub type BindingV = (Seq<char>, ExprV);

pub open spec fn binding_view(b: (String, MyExpression)) -> BindingV {
    (b.0@, b.1@)
}

pub open spec fn bindings_view(v: Seq<(String, MyExpression)>) -> Seq<BindingV> {
    v.map_values(|b: (String, MyExpression)| binding_view(b))
}

/// Every leaf expression of `ini`, in source order, simplified and bound to
/// `fname`.
pub open spec fn fill_spec(fname: Seq<char>, ini: CInitializer) -> Seq<BindingV>
    decreases ini, 0nat,
{
    match ini {
        CInitializer::Expression(e) => seq![(fname, simplify(e))],
        CInitializer::List(xs) => fill_list(fname, xs, xs.len() as nat),
    }
}

/// [`fill_spec`] over the first `n` elements of `xs`, one after the other.
pub open spec fn fill_list(fname: Seq<char>, xs: Vec<CInitializer>, n: nat) -> Seq<BindingV>
    decreases xs, n,
{
    if n == 0 || n > xs.len() {
        seq![]
    } else {
        fill_list(fname, xs, (n - 1) as nat) + fill_spec(fname, xs[n - 1])
    }
}

pub proof fn lemma_bindings_view_push(s: Seq<(String, MyExpression)>, b: (String, MyExpression))
    ensures
        bindings_view(s.push(b)) == bindings_view(s).push(binding_view(b)),
{
    assert(bindings_view(s.push(b)) =~= bindings_view(s).push(binding_view(b)));
}

/// Appends to `acc` each leaf expression of `ini`, simplified and bound to
/// `fname`: a nested list binds all of its leaves to the same name.
pub fn fill(acc: &mut Vec<(String, MyExpression)>, fname: &String, ini: &CInitializer)
    ensures
        bindings_view(final(acc)@) == bindings_view(old(acc)@) + fill_spec(fname@, *ini),
    decreases ini,
{
    match ini {
        CInitializer::Expression(e) => {
            let b = (fname.clone(), transform(e));
            proof {
                lemma_bindings_view_push(acc@, b);
            }
            acc.push(b);
            assert(fill_spec(fname@, *ini) =~= seq![binding_view(b)]);
        },
        CInitializer::List(ls) => {
            let ghost start = bindings_view(acc@);
            let mut j: usize = 0;
            while j < ls.len()
                invariant
                    *ini == CInitializer::List(*ls),
                    j <= ls.len(),
                    bindings_view(acc@) == start + fill_list(fname@, *ls, j as nat),
                decreases ls.len() - j,
            {
                proof {
                    assert(decreases_to!(*ini => ini->List_0));
                    vstd::std_specs::vec::axiom_vec_index_decreases(*ls, j as int);
                    assert(decreases_to!(*ls => ls[j as int]));
                }
                fill(acc, fname, &ls[j]);
                j = j + 1;
                assert(start + fill_list(fname@, *ls, j as nat) =~= start + fill_list(
                    fname@,
                    *ls,
                    (j - 1) as nat,
                ) + fill_spec(fname@, ls[j - 1]));
            }
        },
    }
}

} // verus!
