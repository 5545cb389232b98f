//! Algorithm W: principal types of expressions under a set of assumptions.
use vstd::prelude::*;
use crate::lang::{
    Ex, Expr, Id, NameSupply, Sch, Subst, Ty, Type, TypeScheme, TypeSubstitution, depth, extend,
    fresh, fresh_name, instantiate, subst_all,
};
use crate::unify::{UErr, UnifyError, unify, unify_spec};

verus! {

/// Bindings of term variables to schemes, as a sequence; a later binding hides an earlier one.
pub type Bindings = Seq<(Seq<char>, Sch)>;

/// The map that a sequence of bindings describes.
pub open spec fn to_map(b: Bindings) -> Map<Seq<char>, Sch>
    decreases b.len(),
{
    if b.len() == 0 {
        Map::empty()
    } else {
        to_map(b.drop_last()).insert(b.last().0, b.last().1)
    }
}

/// The assumptions extended by each binding of `s` as a monotype.
pub open spec fn with_subst(a: Map<Seq<char>, Sch>, s: Subst) -> Map<Seq<char>, Sch>
    decreases s.len(),
{
    if s.len() == 0 {
        a
    } else {
        with_subst(a, s.drop_last()).insert(s.last().0, Sch::Mono(s.last().1))
    }
}

/// The typing context: term variables and their schemes.
pub struct Assumptions {
    entries: Vec<(Id, TypeScheme)>,
}

impl Assumptions {
    pub closed spec fn bindings(&self) -> Bindings {
        self.entries@.map_values(|p: (Id, TypeScheme)| (p.0@, p.1@))
    }
}

impl View for Assumptions {
    type V = Map<Seq<char>, Sch>;

    closed spec fn view(&self) -> Map<Seq<char>, Sch> {
        to_map(self.bindings())
    }
}

proof fn lemma_to_map_found(b: Bindings, i: int, k: Seq<char>)
    requires
        0 <= i < b.len(),
        b[i].0 == k,
        forall|j: int| i < j < b.len() ==> #[trigger] b[j].0 != k,
    ensures
        to_map(b).contains_key(k),
        to_map(b)[k] == b[i].1,
    decreases b.len(),
{
    if i < b.len() - 1 {
        lemma_to_map_found(b.drop_last(), i, k);
    }
}

proof fn lemma_to_map_absent(b: Bindings, k: Seq<char>)
    requires
        forall|j: int| 0 <= j < b.len() ==> #[trigger] b[j].0 != k,
    ensures
        !to_map(b).contains_key(k),
    decreases b.len(),
{
    if b.len() > 0 {
        lemma_to_map_absent(b.drop_last(), k);
    }
}

impl Assumptions {
    /// No assumptions.
    pub fn new() -> (r: Assumptions)
        ensures
            r@ == Map::<Seq<char>, Sch>::empty(),
    {
        let r = Assumptions { entries: Vec::new() };
        proof {
            assert(r.bindings().len() == 0);
        }
        r
    }

    /// Binds `x` to `s`, hiding an earlier binding of `x`.
    pub fn insert(&mut self, x: Id, s: TypeScheme)
        ensures
            final(self)@ == old(self)@.insert(x@, s@),
    {
        let ghost xv = x@;
        let ghost sv = s@;
        self.entries.push((x, s));
        proof {
            assert(self.bindings().drop_last() =~= old(self).bindings());
            assert(self.bindings().last() == (xv, sv));
        }
    }

    /// The scheme bound to `x`, if any.
    pub fn get(&self, x: &Id) -> (r: Option<&TypeScheme>)
        ensures
            match r {
                Some(s) => self@.contains_key(x@) && self@[x@] == s@,
                None => !self@.contains_key(x@),
            },
    {
        let mut i: usize = self.entries.len();
        while i > 0
            invariant
                i <= self.entries@.len(),
                self.bindings().len() == self.entries@.len(),
                forall|j: int| i <= j < self.bindings().len() ==> #[trigger] self.bindings()[j].0 != x@,
            decreases i,
        {
            if self.entries[i - 1].0.eq(x) {
                proof {
                    lemma_to_map_found(self.bindings(), i - 1, x@);
                }
                return Some(&self.entries[i - 1].1);
            }
            i = i - 1;
        }
        proof {
            lemma_to_map_absent(self.bindings(), x@);
        }
        None
    }
}

impl Clone for Assumptions {
    fn clone(&self) -> (r: Assumptions)
        ensures
            r@ == self@,
    {
        let mut entries: Vec<(Id, TypeScheme)> = Vec::new();
        let mut i: usize = 0;
        while i < self.entries.len()
            invariant
                i <= self.entries@.len(),
                entries@.len() == i,
                forall|j: int| 0 <= j < i ==> (#[trigger] entries@[j]).0@ == self.entries@[j].0@
                    && entries@[j].1@ == self.entries@[j].1@,
            decreases self.entries@.len() - i,
        {
            entries.push((self.entries[i].0.clone(), self.entries[i].1.clone()));
            i = i + 1;
        }
        let r = Assumptions { entries };
        proof {
            assert(r.bindings() =~= self.bindings());
        }
        r
    }
}

/// The assumptions extended by every binding of `s`, each as a monotype.
pub fn apply_substitution(a: &Assumptions, s: &TypeSubstitution) -> (r: Assumptions)
    ensures
        r@ == with_subst(a@, s@),
{
    let mut r = a.clone();
    let mut i: usize = 0;
    while i < s.len()
        invariant
            i <= s@.len(),
            r@ == with_subst(a@, s@.subrange(0, i as int)),
        decreases s@.len() - i,
    {
        let (x, t) = s.entry(i);
        r.insert(x.clone(), TypeScheme::Type(t.clone()));
        proof {
            assert(s@.subrange(0, i + 1).drop_last() =~= s@.subrange(0, i as int));
        }
        i = i + 1;
    }
    proof {
        assert(s@.subrange(0, i as int) =~= s@);
    }
    r
}

/// Why inference failed, as a mathematical value.
pub enum IErr {
    UnboundVariable(Seq<char>),
    Unification(UErr),
    UnsupportedConstruct,
    NamesExhausted,
}

/// Why inference failed.
#[derive(Debug)]
pub enum InferError {
    /// A variable has no binding in the assumptions.
    UnboundVariable(Id),
    /// The function and argument of an application do not fit.
    Unification(UnifyError),
    /// The expression has a form that has no inference rule (`Let`).
    UnsupportedConstruct,
    /// The name supply has no fresh names left.
    NamesExhausted,
}

impl View for InferError {
    type V = IErr;

    open spec fn view(&self) -> IErr {
        match self {
            InferError::UnboundVariable(x) => IErr::UnboundVariable(x@),
            InferError::Unification(u) => IErr::Unification(u@),
            InferError::UnsupportedConstruct => IErr::UnsupportedConstruct,
            InferError::NamesExhausted => IErr::NamesExhausted,
        }
    }
}

/// Algorithm W on `e` under `a`, with the name supply at `n`: the substitution, the type,
/// and the supply's counter afterwards.
pub open spec fn infer(a: Map<Seq<char>, Sch>, e: Ex, n: nat) -> Result<(Subst, Ty, nat), IErr>
    decreases e,
{
    match e {
        Ex::Unit => Ok((Seq::empty(), Ty::Unit, n)),
        Ex::Var(x) => if !a.contains_key(x) {
            Err(IErr::UnboundVariable(x))
        } else if n + depth(a[x]) > u64::MAX {
            Err(IErr::NamesExhausted)
        } else {
            Ok((Seq::empty(), instantiate(a[x], n), n + depth(a[x])))
        },
        Ex::Lambda(p, body) => if n >= u64::MAX {
            Err(IErr::NamesExhausted)
        } else {
            let beta = Ty::Var(fresh_name(n));
            match infer(a.insert(p, Sch::Mono(beta)), *body, n + 1) {
                Err(err) => Err(err),
                Ok((s, tb, n1)) => Ok(
                    (s, Ty::Fun(Box::new(subst_all(beta, s)), Box::new(tb)), n1),
                ),
            }
        },
        Ex::App(fun, arg) => match infer(a, *fun, n) {
            Err(err) => Err(err),
            Ok((s1, tf, n1)) => match infer(with_subst(a, s1), *arg, n1) {
                Err(err) => Err(err),
                Ok((s2, ta, n2)) => if n2 >= u64::MAX {
                    Err(IErr::NamesExhausted)
                } else {
                    let beta = Ty::Var(fresh_name(n2));
                    match unify_spec(subst_all(tf, s2), Ty::Fun(Box::new(ta), Box::new(beta))) {
                        Err(u) => Err(IErr::Unification(u)),
                        Ok(v) => Ok((extend(extend(s1, s2), v), subst_all(beta, v), n2 + 1)),
                    }
                },
            },
        },
        Ex::Let(..) => Err(IErr::UnsupportedConstruct),
    }
}

/// What a run of `algo_w` returned, with the supply's counter afterwards.
pub open spec fn outcome(r: Result<(TypeSubstitution, Type), InferError>, n: u64) -> Result<
    (Subst, Ty, nat),
    IErr,
> {
    match r {
        Ok((s, t)) => Ok((s@, t@, n as nat)),
        Err(e) => Err(e@),
    }
}

/// Infers the principal type of `e` under `a`, drawing fresh type variables from `supply`.
pub fn algo_w(a: &Assumptions, e: &Expr, supply: &mut NameSupply) -> (r: Result<
    (TypeSubstitution, Type),
    InferError,
>)
    ensures
        outcome(r, final(supply).next) == infer(a@, e@, old(supply).next as nat),
        r matches Ok((s, _)) ==> s.wf(),
        final(supply).next >= old(supply).next,
    decreases e,
{
    match e {
        Expr::Unit => Ok((TypeSubstitution::new(), Type::Unit)),
        Expr::Var(x) => match a.get(x) {
            None => Err(InferError::UnboundVariable(x.clone())),
            Some(sigma) => {
                if !sigma.depth_within(u64::MAX - supply.next) {
                    return Err(InferError::NamesExhausted);
                }
                let t = sigma.instantiate_with_fresh_vars(supply);
                Ok((TypeSubstitution::new(), t))
            },
        },
        Expr::App { fun, arg } => {
            let (s1, tau_fun) = match algo_w(a, fun, supply) {
                Ok(p) => p,
                Err(err) => return Err(err),
            };
            let a1 = apply_substitution(a, &s1);
            let (s2, tau_arg) = match algo_w(&a1, arg, supply) {
                Ok(p) => p,
                Err(err) => return Err(err),
            };
            if supply.next == u64::MAX {
                return Err(InferError::NamesExhausted);
            }
            let beta = Type::Var(fresh(supply));
            let v = match unify(
                &tau_fun.substitute_many(&s2),
                &Type::Function { arg: Box::new(tau_arg), result: Box::new(beta.clone()) },
            ) {
                Ok(v) => v,
                Err(u) => return Err(InferError::Unification(u)),
            };
            let tau = beta.substitute_many(&v);
            let mut s = s1;
            s.extend(&s2);
            s.extend(&v);
            Ok((s, tau))
        },
        Expr::Lambda { param, body } => {
            if supply.next == u64::MAX {
                return Err(InferError::NamesExhausted);
            }
            let beta = Type::Var(fresh(supply));
            let mut a1 = a.clone();
            a1.insert(param.clone(), TypeScheme::Type(beta.clone()));
            let (s, tau_body) = match algo_w(&a1, body, supply) {
                Ok(p) => p,
                Err(err) => return Err(err),
            };
            let tau_func = Type::Function {
                arg: Box::new(beta.substitute_many(&s)),
                result: Box::new(tau_body),
            };
            Ok((s, tau_func))
        },
        Expr::Let { .. } => Err(InferError::UnsupportedConstruct),
    }
}

} // verus!
