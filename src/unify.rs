//! Robinson's unification with an occurs check.
use vstd::prelude::*;
use vstd::set_lib::*;
use crate::lang::{Id, Subst, Ty, Type, TypeSubstitution, subst, subst_all, vars, has_key, bind};

verus! {

/// Why two types have no unifier, as a mathematical value.
pub enum UErr {
    Mismatch(Ty, Ty),
    Occurs(Seq<char>, Ty),
}

/// Why two types have no unifier.
#[derive(Debug)]
pub enum UnifyError {
    /// Two different constructors meet.
    Mismatch { expected: Type, found: Type },
    /// A variable would be bound to a type that contains it.
    Occurs { var: Id, ty: Type },
}

impl View for UnifyError {
    type V = UErr;

    open spec fn view(&self) -> UErr {
        match self {
            UnifyError::Mismatch { expected, found } => UErr::Mismatch(expected@, found@),
            UnifyError::Occurs { var, ty } => UErr::Occurs(var@, ty@),
        }
    }
}

/// The first place where two types differ, argument before result.
pub open spec fn disagree(a: Ty, b: Ty) -> Option<(Ty, Ty)>
    decreases a,
{
    match a {
        Ty::Var(x) => match b {
            Ty::Var(y) => if x == y {
                None
            } else {
                Some((a, b))
            },
            _ => Some((a, b)),
        },
        Ty::Unit => match b {
            Ty::Unit => None,
            _ => Some((a, b)),
        },
        Ty::Fun(a1, r1) => match b {
            Ty::Fun(a2, r2) => match disagree(*a1, *a2) {
                Some(d) => Some(d),
                None => disagree(*r1, *r2),
            },
            _ => Some((a, b)),
        },
    }
}

/// Robinson's loop from the bindings `s` found so far: bind a variable of the first
/// disagreement to the other side, apply the binding to both types, and go on.
pub open spec fn robinson(a: Ty, b: Ty, s: Subst) -> Result<Subst, UErr>
    decreases vars(a).union(vars(b)).len(),
{
    match disagree(a, b) {
        None => Ok(s),
        Some((l, r)) => {
            proof {
                lemma_disagree(a, b);
            }
            match l {
                Ty::Var(x) => if vars(r).contains(x) {
                    Err(UErr::Occurs(x, r))
                } else {
                    proof {
                        lemma_step_shrinks(a, b, x, r);
                    }
                    robinson(subst(a, x, r), subst(b, x, r), s.push((x, r)))
                },
                _ => match r {
                    Ty::Var(x) => if vars(l).contains(x) {
                        Err(UErr::Occurs(x, l))
                    } else {
                        proof {
                            lemma_step_shrinks(a, b, x, l);
                        }
                        robinson(subst(a, x, l), subst(b, x, l), s.push((x, l)))
                    },
                    _ => Err(UErr::Mismatch(l, r)),
                },
            }
        },
    }
}

/// What unification of `a` and `b` yields.
pub open spec fn unify_spec(a: Ty, b: Ty) -> Result<Subst, UErr> {
    robinson(a, b, Seq::empty())
}

/// Simultaneous substitution by a map.
pub open spec fn apply(th: Map<Seq<char>, Ty>, t: Ty) -> Ty
    decreases t,
{
    match t {
        Ty::Var(x) => if th.contains_key(x) {
            th[x]
        } else {
            t
        },
        Ty::Unit => Ty::Unit,
        Ty::Fun(a, b) => Ty::Fun(Box::new(apply(th, *a)), Box::new(apply(th, *b))),
    }
}

/// `th` makes `a` and `b` equal.
pub open spec fn unifies(th: Map<Seq<char>, Ty>, a: Ty, b: Ty) -> bool {
    apply(th, a) == apply(th, b)
}

/// Some substitution makes `a` and `b` equal.
pub open spec fn unifiable(a: Ty, b: Ty) -> bool {
    exists|th: Map<Seq<char>, Ty>| unifies(th, a, b)
}

/// `th` does on every type what it does after `s` has been applied.
pub open spec fn factors_through(th: Map<Seq<char>, Ty>, s: Subst) -> bool {
    forall|t: Ty| #[trigger] apply(th, subst_all(t, s)) == apply(th, t)
}

/// `s` is at least as general as every unifier of `a` and `b`.
pub open spec fn most_general(s: Subst, a: Ty, b: Ty) -> bool {
    forall|th: Map<Seq<char>, Ty>| unifies(th, a, b) ==> #[trigger] factors_through(th, s)
}

/// The number of constructors and variables in `t`.
pub open spec fn size(t: Ty) -> nat
    decreases t,
{
    match t {
        Ty::Fun(a, b) => 1 + size(*a) + size(*b),
        _ => 1,
    }
}

/// What a run of `unify` returned, as a mathematical value.
pub open spec fn result_view(r: Result<TypeSubstitution, UnifyError>) -> Result<Subst, UErr> {
    match r {
        Ok(s) => Ok(s@),
        Err(e) => Err(e@),
    }
}

/// A type has finitely many variables.
pub proof fn lemma_vars_finite(t: Ty)
    ensures
        vars(t).finite(),
    decreases t,
{
    if let Ty::Fun(a, b) = t {
        lemma_vars_finite(*a);
        lemma_vars_finite(*b);
    }
}

/// Substitution removes the variable and brings in those of the replacement, no others.
pub proof fn lemma_subst_vars(t: Ty, x: Seq<char>, r: Ty)
    ensures
        vars(subst(t, x, r)).subset_of(vars(t).remove(x).union(vars(r))),
        !vars(t).contains(x) ==> subst(t, x, r) == t,
    decreases t,
{
    if let Ty::Fun(a, b) = t {
        lemma_subst_vars(*a, x, r);
        lemma_subst_vars(*b, x, r);
    }
}

/// Facts on the first disagreement of two types.
pub proof fn lemma_disagree(a: Ty, b: Ty)
    ensures
        disagree(a, b) is None <==> a == b,
        disagree(a, b) matches Some((l, r)) ==> {
            &&& vars(l).subset_of(vars(a))
            &&& vars(r).subset_of(vars(b))
            &&& l != r
            &&& !(l is Unit && r is Unit)
            &&& !(l is Fun && r is Fun)
        },
    decreases a,
{
    if let (Ty::Fun(a1, r1), Ty::Fun(a2, r2)) = (a, b) {
        lemma_disagree(*a1, *a2);
        lemma_disagree(*r1, *r2);
    }
}

/// A unifier of two types unifies their first disagreement.
pub proof fn lemma_disagree_unifies(th: Map<Seq<char>, Ty>, a: Ty, b: Ty)
    requires
        unifies(th, a, b),
    ensures
        disagree(a, b) matches Some((l, r)) ==> unifies(th, l, r),
    decreases a,
{
    if let (Ty::Fun(a1, r1), Ty::Fun(a2, r2)) = (a, b) {
        lemma_disagree_unifies(th, *a1, *a2);
        lemma_disagree_unifies(th, *r1, *r2);
    }
}

/// Binding a variable that a unifier equates with `r` changes nothing under that unifier.
pub proof fn lemma_apply_subst(th: Map<Seq<char>, Ty>, t: Ty, x: Seq<char>, r: Ty)
    requires
        apply(th, Ty::Var(x)) == apply(th, r),
    ensures
        apply(th, subst(t, x, r)) == apply(th, t),
    decreases t,
{
    if let Ty::Fun(a, b) = t {
        lemma_apply_subst(th, *a, x, r);
        lemma_apply_subst(th, *b, x, r);
    }
}

/// A type that strictly contains a variable is larger under any substitution.
pub proof fn lemma_occurs_size(th: Map<Seq<char>, Ty>, t: Ty, x: Seq<char>)
    requires
        vars(t).contains(x),
    ensures
        size(apply(th, t)) >= size(apply(th, Ty::Var(x))),
        t != Ty::Var(x) ==> size(apply(th, t)) > size(apply(th, Ty::Var(x))),
    decreases t,
{
    if let Ty::Fun(a, b) = t {
        if vars(*a).contains(x) {
            lemma_occurs_size(th, *a, x);
        } else {
            lemma_occurs_size(th, *b, x);
        }
    }
}

/// Binding a variable of the types to a part of them that lacks it leaves fewer variables.
pub proof fn lemma_step_shrinks(a: Ty, b: Ty, x: Seq<char>, t: Ty)
    requires
        vars(a).union(vars(b)).contains(x),
        vars(t).subset_of(vars(a).union(vars(b))),
        !vars(t).contains(x),
    ensures
        vars(subst(a, x, t)).union(vars(subst(b, x, t))).subset_of(vars(a).union(vars(b)).remove(x)),
        vars(subst(a, x, t)).union(vars(subst(b, x, t))).len() < vars(a).union(vars(b)).len(),
        !vars(subst(a, x, t)).contains(x),
        !vars(subst(b, x, t)).contains(x),
{
    lemma_subst_vars(a, x, t);
    lemma_subst_vars(b, x, t);
    lemma_vars_finite(a);
    lemma_vars_finite(b);
    let old_vars = vars(a).union(vars(b));
    let new_vars = vars(subst(a, x, t)).union(vars(subst(b, x, t)));
    assert(new_vars.subset_of(old_vars.remove(x)));
    lemma_len_subset(new_vars, old_vars.remove(x));
}

/// Whether `x` occurs in `t`.
fn occurs(x: &Id, t: &Type) -> (r: bool)
    ensures
        r == vars(t@).contains(x@),
    decreases t,
{
    match t {
        Type::Var(y) => x.eq(y),
        Type::Unit => false,
        Type::Function { arg, result } => occurs(x, arg) || occurs(x, result),
    }
}

/// The first place where two types differ, argument before result.
fn disagreement<'a>(tau1: &'a Type, tau2: &'a Type) -> (r: Option<(&'a Type, &'a Type)>)
    ensures
        match r {
            Some((l, rt)) => disagree(tau1@, tau2@) == Some((l@, rt@)),
            None => disagree(tau1@, tau2@) is None,
        },
    decreases tau1,
{
    match (tau1, tau2) {
        (Type::Var(x1), Type::Var(x2)) => {
            if x1.eq(x2) {
                None
            } else {
                Some((tau1, tau2))
            }
        },
        (Type::Unit, Type::Unit) => None,
        (Type::Function { arg: arg1, result: result1 }, Type::Function { arg: arg2, result: result2 }) => {
            match disagreement(arg1, arg2) {
                Some(d) => Some(d),
                None => disagreement(result1, result2),
            }
        },
        _ => Some((tau1, tau2)),
    }
}

/// Unifies two types: on success the substitution makes them equal and is the most
/// general one to do so; a failure means that no substitution makes them equal.
pub fn unify(tau1: &Type, tau2: &Type) -> (r: Result<TypeSubstitution, UnifyError>)
    ensures
        result_view(r) == unify_spec(tau1@, tau2@),
        r matches Ok(s) ==> {
            &&& s.wf()
            &&& subst_all(tau1@, s@) == subst_all(tau2@, s@)
            &&& most_general(s@, tau1@, tau2@)
        },
        r is Err <==> !unifiable(tau1@, tau2@),
        tau1@ == tau2@ ==> (r matches Ok(s) && s@.len() == 0),
{
    let mut s = TypeSubstitution::new();
    let mut c1 = tau1.clone();
    let mut c2 = tau2.clone();
    proof {
        assert(robinson(c1@, c2@, s@) == unify_spec(tau1@, tau2@));
        assert forall|th: Map<Seq<char>, Ty>| unifies(th, tau1@, tau2@) implies #[trigger] factors_through(th, s@) by {
        }
        lemma_disagree(tau1@, tau2@);
    }
    loop
        invariant
            s.wf(),
            c1@ == subst_all(tau1@, s@),
            c2@ == subst_all(tau2@, s@),
            robinson(c1@, c2@, s@) == unify_spec(tau1@, tau2@),
            forall|i: int| 0 <= i < s@.len() ==> !vars(c1@).contains(#[trigger] s@[i].0) && !vars(c2@).contains(s@[i].0),
            forall|th: Map<Seq<char>, Ty>| unifies(th, tau1@, tau2@) ==> unifies(th, c1@, c2@),
            most_general(s@, tau1@, tau2@),
            tau1@ == tau2@ ==> s@.len() == 0 && c1@ == c2@,
        decreases vars(c1@).union(vars(c2@)).len(),
    {
        proof {
            lemma_disagree(c1@, c2@);
        }
        if c1 == c2 {
            proof {
                lemma_as_map(s@, tau1@);
                lemma_as_map(s@, tau2@);
                assert(unifies(as_map(s@), tau1@, tau2@));
            }
            return Ok(s);
        }
        let (l, rt) = match disagreement(&c1, &c2) {
            Some((l, rt)) => (l.clone(), rt.clone()),
            None => {
                return Ok(s);
            },
        };
        let (x, t) = match (&l, &rt) {
            (Type::Var(x), _) => (x.clone(), rt.clone()),
            (_, Type::Var(x)) => (x.clone(), l.clone()),
            _ => {
                proof {
                    assert forall|th: Map<Seq<char>, Ty>| !unifies(th, tau1@, tau2@) by {
                        if unifies(th, tau1@, tau2@) {
                            lemma_disagree_unifies(th, c1@, c2@);
                        }
                    }
                }
                return Err(UnifyError::Mismatch { expected: l, found: rt });
            },
        };
        proof {
            lemma_disagree_unifies_all(tau1@, tau2@, c1@, c2@);
        }
        if occurs(&x, &t) {
            proof {
                assert forall|th: Map<Seq<char>, Ty>| !unifies(th, tau1@, tau2@) by {
                    if unifies(th, tau1@, tau2@) {
                        lemma_disagree_unifies(th, c1@, c2@);
                        lemma_occurs_size(th, t@, x@);
                    }
                }
            }
            return Err(UnifyError::Occurs { var: x, ty: t });
        }
        let ghost old_s = s@;
        let ghost (o1, o2) = (c1@, c2@);
        proof {
            lemma_step_shrinks(c1@, c2@, x@, t@);
            assert(!has_key(s@, x@));
            assert(bind(s@, x@, t@) == s@.push((x@, t@)));
        }
        c1 = c1.substitute(&x, &t);
        c2 = c2.substitute(&x, &t);
        s.insert(x, t);
        proof {
            let xv = s@.last().0;
            let tv = s@.last().1;
            assert(s@.drop_last() =~= old_s);
            assert forall|i: int| 0 <= i < s@.len() implies !vars(c1@).contains(#[trigger] s@[i].0) && !vars(c2@).contains(s@[i].0) by {
                if i < old_s.len() {
                    assert(s@[i] == old_s[i]);
                    assert(!vars(o1).union(vars(o2)).contains(s@[i].0));
                    assert(!vars(c1@).union(vars(c2@)).contains(s@[i].0));
                }
            }
            assert forall|th: Map<Seq<char>, Ty>| unifies(th, tau1@, tau2@) implies unifies(th, c1@, c2@) by {
                lemma_apply_subst(th, o1, xv, tv);
                lemma_apply_subst(th, o2, xv, tv);
            }
            assert forall|th: Map<Seq<char>, Ty>| unifies(th, tau1@, tau2@) implies #[trigger] factors_through(th, s@) by {
                assert(factors_through(th, old_s));
                assert forall|u: Ty| #[trigger] apply(th, subst_all(u, s@)) == apply(th, u) by {
                    lemma_apply_subst(th, subst_all(u, old_s), xv, tv);
                }
            }
        }
    }
}

/// Under a unifier of the original pair, each first disagreement of the current pair
/// is unified too.
proof fn lemma_disagree_unifies_all(a: Ty, b: Ty, c: Ty, d: Ty)
    requires
        forall|th: Map<Seq<char>, Ty>| unifies(th, a, b) ==> unifies(th, c, d),
    ensures
        disagree(c, d) matches Some((l, r)) ==> forall|th: Map<Seq<char>, Ty>|
            unifies(th, a, b) ==> #[trigger] apply(th, l) == apply(th, r),
{
    if let Some((l, r)) = disagree(c, d) {
        assert forall|th: Map<Seq<char>, Ty>| unifies(th, a, b) implies #[trigger] apply(th, l) == apply(th, r) by {
            lemma_disagree_unifies(th, c, d);
        }
    }
}

/// The simultaneous substitution that does what folding `s` does.
pub open spec fn as_map(s: Subst) -> Map<Seq<char>, Ty> {
    Map::new(|k: Seq<char>| true, |k: Seq<char>| subst_all(Ty::Var(k), s))
}

proof fn lemma_subst_all_parts(s: Subst, a: Ty, b: Ty)
    ensures
        subst_all(Ty::Fun(Box::new(a), Box::new(b)), s) == Ty::Fun(
            Box::new(subst_all(a, s)),
            Box::new(subst_all(b, s)),
        ),
        subst_all(Ty::Unit, s) == Ty::Unit,
    decreases s.len(),
{
    if s.len() > 0 {
        lemma_subst_all_parts(s.drop_last(), a, b);
    }
}

/// Folding a substitution over a type is a simultaneous substitution.
pub proof fn lemma_as_map(s: Subst, t: Ty)
    ensures
        apply(as_map(s), t) == subst_all(t, s),
    decreases t,
{
    match t {
        Ty::Fun(a, b) => {
            lemma_as_map(s, *a);
            lemma_as_map(s, *b);
            lemma_subst_all_parts(s, *a, *b);
        },
        _ => {
            lemma_subst_all_parts(s, Ty::Unit, Ty::Unit);
        },
    }
}

} // verus!
