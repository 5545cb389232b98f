//! Expressions, types, type schemes, substitutions and the fresh-name supply.
use vstd::prelude::*;

verus! {

pub type Id = String;

/// A type term as a mathematical value.
pub enum Ty {
    Var(Seq<char>),
    Unit,
    Fun(Box<Ty>, Box<Ty>),
}

/// A type scheme as a mathematical value.
pub enum Sch {
    Mono(Ty),
    Poly(Seq<char>, Box<Sch>),
}

/// An expression as a mathematical value.
pub enum Ex {
    Var(Seq<char>),
    App(Box<Ex>, Box<Ex>),
    Lambda(Seq<char>, Box<Ex>),
    Let(Seq<char>, Box<Ex>, Box<Ex>),
    Unit,
}

/// A substitution as a mathematical value: bindings in the order they are folded.
pub type Subst = Seq<(Seq<char>, Ty)>;

#[derive(Debug)]
pub enum Expr {
    Var(Id),
    App { fun: Box<Expr>, arg: Box<Expr> },
    Lambda { param: Id, body: Box<Expr> },
    Let { var: Id, value: Box<Expr>, body: Box<Expr> },
    Unit,
}

#[derive(Debug)]
pub enum Type {
    Var(Id),
    Unit,
    Function { arg: Box<Type>, result: Box<Type> },
}

#[derive(Debug)]
pub enum TypeScheme {
    Type(Type),
    Poly { var: Id, body: Box<TypeScheme> },
}

pub open spec fn ty_of(t: &Type) -> Ty
    decreases t,
{
    match t {
        Type::Var(x) => Ty::Var(x@),
        Type::Unit => Ty::Unit,
        Type::Function { arg, result } => Ty::Fun(Box::new(ty_of(arg)), Box::new(ty_of(result))),
    }
}

pub open spec fn sch_of(s: &TypeScheme) -> Sch
    decreases s,
{
    match s {
        TypeScheme::Type(t) => Sch::Mono(ty_of(t)),
        TypeScheme::Poly { var, body } => Sch::Poly(var@, Box::new(sch_of(body))),
    }
}

pub open spec fn ex_of(e: &Expr) -> Ex
    decreases e,
{
    match e {
        Expr::Var(x) => Ex::Var(x@),
        Expr::App { fun, arg } => Ex::App(Box::new(ex_of(fun)), Box::new(ex_of(arg))),
        Expr::Lambda { param, body } => Ex::Lambda(param@, Box::new(ex_of(body))),
        Expr::Let { var, value, body } => Ex::Let(
            var@,
            Box::new(ex_of(value)),
            Box::new(ex_of(body)),
        ),
        Expr::Unit => Ex::Unit,
    }
}

impl View for Type {
    type V = Ty;

    open spec fn view(&self) -> Ty {
        ty_of(self)
    }
}

impl View for TypeScheme {
    type V = Sch;

    open spec fn view(&self) -> Sch {
        sch_of(self)
    }
}

impl View for Expr {
    type V = Ex;

    open spec fn view(&self) -> Ex {
        ex_of(self)
    }
}

impl Clone for Type {
    fn clone(&self) -> (r: Self)
        ensures
            r@ == self@,
        decreases self,
    {
        match self {
            Type::Var(x) => Type::Var(x.clone()),
            Type::Unit => Type::Unit,
            Type::Function { arg, result } => Type::Function {
                arg: Box::new((**arg).clone()),
                result: Box::new((**result).clone()),
            },
        }
    }
}

impl PartialEq for Type {
    fn eq(&self, o: &Type) -> (r: bool) {
        same_type(self, o)
    }
}

/// Structural comparison of two types.
fn same_type(a: &Type, b: &Type) -> (r: bool)
    ensures
        r == (a@ == b@),
    decreases a,
{
    match (a, b) {
        (Type::Var(x), Type::Var(y)) => {
            x.eq(y)
        },
        (Type::Unit, Type::Unit) => true,
        (Type::Function { arg: a1, result: r1 }, Type::Function { arg: a2, result: r2 }) => {
            let r = same_type(a1, a2) && same_type(r1, r2);
            proof {
                if !r {
                    if ty_of(a1) != ty_of(a2) {
                        assert(a@->Fun_0 != b@->Fun_0);
                    } else {
                        assert(a@->Fun_1 != b@->Fun_1);
                    }
                }
            }
            r
        },
        _ => false,
    }
}

impl vstd::std_specs::cmp::PartialEqSpecImpl for Type {
    open spec fn obeys_eq_spec() -> bool {
        true
    }

    open spec fn eq_spec(&self, o: &Type) -> bool {
        self@ == o@
    }
}

impl Clone for TypeScheme {
    fn clone(&self) -> (r: Self)
        ensures
            r@ == self@,
        decreases self,
    {
        match self {
            TypeScheme::Poly { var, body } => TypeScheme::Poly {
                var: var.clone(),
                body: Box::new((**body).clone()),
            },
            TypeScheme::Type(t) => TypeScheme::Type(t.clone()),
        }
    }
}

impl PartialEq for TypeScheme {
    fn eq(&self, o: &TypeScheme) -> (r: bool) {
        same_scheme(self, o)
    }
}

/// Structural comparison of two schemes.
fn same_scheme(a: &TypeScheme, b: &TypeScheme) -> (r: bool)
    ensures
        r == (a@ == b@),
    decreases a,
{
    match (a, b) {
        (TypeScheme::Type(t1), TypeScheme::Type(t2)) => same_type(t1, t2),
        (TypeScheme::Poly { var: v1, body: b1 }, TypeScheme::Poly { var: v2, body: b2 }) => {
            let r = v1.eq(v2) && same_scheme(b1, b2);
            proof {
                if !r && v1@ == v2@ {
                    assert(a@->Poly_1 != b@->Poly_1);
                }
            }
            r
        },
        _ => false,
    }
}

impl vstd::std_specs::cmp::PartialEqSpecImpl for TypeScheme {
    open spec fn obeys_eq_spec() -> bool {
        true
    }

    open spec fn eq_spec(&self, o: &TypeScheme) -> bool {
        self@ == o@
    }
}

/// Replaces every occurrence of the variable `x` in `t` by `r`.
pub open spec fn subst(t: Ty, x: Seq<char>, r: Ty) -> Ty
    decreases t,
{
    match t {
        Ty::Var(y) => if y == x {
            r
        } else {
            t
        },
        Ty::Unit => Ty::Unit,
        Ty::Fun(a, b) => Ty::Fun(Box::new(subst(*a, x, r)), Box::new(subst(*b, x, r))),
    }
}

/// Applies the bindings of `s` one after the other, first binding first.
pub open spec fn subst_all(t: Ty, s: Subst) -> Ty
    decreases s.len(),
{
    if s.len() == 0 {
        t
    } else {
        subst(subst_all(t, s.drop_last()), s.last().0, s.last().1)
    }
}

/// The type variables that occur in `t`.
pub open spec fn vars(t: Ty) -> Set<Seq<char>>
    decreases t,
{
    match t {
        Ty::Var(x) => set![x],
        Ty::Unit => Set::empty(),
        Ty::Fun(a, b) => vars(*a).union(vars(*b)),
    }
}

/// No variable is bound twice.
pub open spec fn keys_unique(s: Subst) -> bool {
    forall|i: int, j: int| 0 <= i < j < s.len() ==> #[trigger] s[i].0 != #[trigger] s[j].0
}

/// `x` is bound in `s`.
pub open spec fn has_key(s: Subst, x: Seq<char>) -> bool {
    exists|i: int| 0 <= i < s.len() && #[trigger] s[i].0 == x
}

/// Binds `x` to `t`: the binding of `x` is replaced where it stands, or added at the end.
pub open spec fn bind(s: Subst, x: Seq<char>, t: Ty) -> Subst {
    if has_key(s, x) {
        let i = choose|i: int| 0 <= i < s.len() && #[trigger] s[i].0 == x;
        s.update(i, (x, t))
    } else {
        s.push((x, t))
    }
}

/// Extends `s` with every binding of `o`, in the order of `o`; a binding of `o` wins.
pub open spec fn extend(s: Subst, o: Subst) -> Subst
    decreases o.len(),
{
    if o.len() == 0 {
        s
    } else {
        bind(extend(s, o.drop_last()), o.last().0, o.last().1)
    }
}

impl Type {
    /// Replaces every occurrence of the variable `x` by `ty`.
    pub fn substitute(&self, x: &Id, ty: &Type) -> (r: Type)
        ensures
            r@ == subst(self@, x@, ty@),
        decreases self,
    {
        match self {
            Type::Var(x2) => if x.eq(x2) {
                ty.clone()
            } else {
                self.clone()
            },
            Type::Unit => Type::Unit,
            Type::Function { arg, result } => Type::Function {
                arg: Box::new(arg.substitute(x, ty)),
                result: Box::new(result.substitute(x, ty)),
            },
        }
    }

    /// Applies the bindings of `s` in their order.
    pub fn substitute_many(&self, s: &TypeSubstitution) -> (r: Type)
        ensures
            r@ == subst_all(self@, s@),
    {
        let mut t = self.clone();
        let mut i: usize = 0;
        while i < s.entries.len()
            invariant
                i <= s.entries@.len(),
                s@.len() == s.entries@.len(),
                t@ == subst_all(self@, s@.subrange(0, i as int)),
            decreases s.entries@.len() - i,
        {
            let (x, ty) = &s.entries[i];
            t = t.substitute(x, ty);
            proof {
                assert(s@.subrange(0, i + 1).drop_last() =~= s@.subrange(0, i as int));
            }
            i = i + 1;
        }
        proof {
            assert(s@.subrange(0, i as int) =~= s@);
        }
        t
    }
}

/// A finite map from type variables to types, kept in the order of its bindings.
pub struct TypeSubstitution {
    entries: Vec<(Id, Type)>,
}

impl View for TypeSubstitution {
    type V = Subst;

    closed spec fn view(&self) -> Subst {
        self.entries@.map_values(|p: (Id, Type)| (p.0@, p.1@))
    }
}

impl TypeSubstitution {
    /// No variable is bound twice.
    pub closed spec fn wf(&self) -> bool {
        keys_unique(self@)
    }

    /// The empty substitution.
    pub fn new() -> (r: TypeSubstitution)
        ensures
            r.wf(),
            r@ == Seq::<(Seq<char>, Ty)>::empty(),
    {
        let r = TypeSubstitution { entries: Vec::new() };
        proof {
            assert(r@ =~= Seq::<(Seq<char>, Ty)>::empty());
        }
        r
    }

    /// The number of bindings.
    pub fn len(&self) -> (r: usize)
        ensures
            r == self@.len(),
    {
        self.entries.len()
    }

    /// The binding at index `i`.
    pub fn entry(&self, i: usize) -> (r: (&Id, &Type))
        requires
            i < self@.len(),
        ensures
            r.0@ == self@[i as int].0,
            r.1@ == self@[i as int].1,
    {
        let (x, t) = &self.entries[i];
        (x, t)
    }

    /// Where `x` is bound, its index.
    fn position(&self, x: &Id) -> (r: Option<usize>)
        ensures
            match r {
                Some(i) => i < self@.len() && self@[i as int].0 == x@,
                None => !has_key(self@, x@),
            },
    {
        let mut i: usize = 0;
        while i < self.entries.len()
            invariant
                i <= self.entries@.len(),
                self@.len() == self.entries@.len(),
                forall|j: int| 0 <= j < i ==> self@[j].0 != x@,
            decreases self.entries@.len() - i,
        {
            if self.entries[i].0.eq(x) {
                return Some(i);
            }
            i = i + 1;
        }
        None
    }

    /// The type bound to `x`, if any.
    pub fn get(&self, x: &Id) -> (r: Option<&Type>)
        ensures
            match r {
                Some(t) => exists|i: int|
                    0 <= i < self@.len() && #[trigger] self@[i].0 == x@ && self@[i].1 == t@,
                None => !has_key(self@, x@),
            },
    {
        match self.position(x) {
            Some(i) => Some(&self.entries[i].1),
            None => None,
        }
    }

    /// Binds `x` to `t`, replacing an earlier binding of `x`.
    pub fn insert(&mut self, x: Id, t: Type)
        requires
            old(self).wf(),
        ensures
            final(self).wf(),
            final(self)@ == bind(old(self)@, x@, t@),
    {
        proof {
            lemma_bind_unique(self@, x@, t@);
        }
        match self.position(&x) {
            Some(i) => {
                proof {
                    let j = choose|j: int| 0 <= j < self@.len() && #[trigger] self@[j].0 == x@;
                    assert(j == i);
                }
                self.entries.set(i, (x, t));
                proof {
                    assert(self@ =~= bind(old(self)@, x@, t@));
                }
            },
            None => {
                self.entries.push((x, t));
                proof {
                    assert(self@ =~= bind(old(self)@, x@, t@));
                }
            },
        }
    }

    /// Adds every binding of `o`, in its order; a binding of `o` replaces one of `self`.
    pub fn extend(&mut self, o: &TypeSubstitution)
        requires
            old(self).wf(),
        ensures
            final(self).wf(),
            final(self)@ == extend(old(self)@, o@),
    {
        let mut i: usize = 0;
        while i < o.entries.len()
            invariant
                i <= o.entries@.len(),
                o@.len() == o.entries@.len(),
                self.wf(),
                self@ == extend(old(self)@, o@.subrange(0, i as int)),
            decreases o.entries@.len() - i,
        {
            let x = o.entries[i].0.clone();
            let t = o.entries[i].1.clone();
            self.insert(x, t);
            proof {
                assert(o@.subrange(0, i + 1).drop_last() =~= o@.subrange(0, i as int));
            }
            i = i + 1;
        }
        proof {
            assert(o@.subrange(0, i as int) =~= o@);
        }
    }
}

proof fn lemma_bind_unique(s: Subst, x: Seq<char>, t: Ty)
    requires
        keys_unique(s),
    ensures
        keys_unique(bind(s, x, t)),
{
    let b = bind(s, x, t);
    if has_key(s, x) {
        let k = choose|i: int| 0 <= i < s.len() && #[trigger] s[i].0 == x;
        assert forall|i: int, j: int| 0 <= i < j < b.len() implies #[trigger] b[i].0 != #[trigger] b[j].0 by {
            assert(s[i].0 != s[j].0);
        }
    } else {
        assert forall|i: int, j: int| 0 <= i < j < b.len() implies #[trigger] b[i].0 != #[trigger] b[j].0 by {
            if j < s.len() {
                assert(s[i].0 != s[j].0);
            } else {
                assert(s[i].0 != x);
            }
        }
    }
}

/// Replaces the free occurrences of `x` in a scheme; a quantifier over `x` shields its body.
pub open spec fn sch_subst(s: Sch, x: Seq<char>, r: Ty) -> Sch
    decreases s,
{
    match s {
        Sch::Mono(t) => Sch::Mono(subst(t, x, r)),
        Sch::Poly(v, b) => if v == x {
            s
        } else {
            Sch::Poly(v, Box::new(sch_subst(*b, x, r)))
        },
    }
}

/// The number of quantifiers of a scheme.
pub open spec fn depth(s: Sch) -> nat
    decreases s,
{
    match s {
        Sch::Mono(_) => 0,
        Sch::Poly(_, b) => 1 + depth(*b),
    }
}

/// Substitution keeps the number of quantifiers.
pub proof fn lemma_sch_subst_depth(s: Sch, x: Seq<char>, r: Ty)
    ensures
        depth(sch_subst(s, x, r)) == depth(s),
    decreases s,
{
    if let Sch::Poly(v, b) = s {
        lemma_sch_subst_depth(*b, x, r);
    }
}

/// Strips the quantifiers of `s`, each replaced by the fresh name numbered from `n` on.
pub open spec fn instantiate(s: Sch, n: nat) -> Ty
    decreases depth(s),
{
    match s {
        Sch::Mono(t) => t,
        Sch::Poly(v, b) => {
            proof {
                lemma_sch_subst_depth(*b, v, Ty::Var(fresh_name(n)));
            }
            instantiate(sch_subst(*b, v, Ty::Var(fresh_name(n))), n + 1)
        },
    }
}

impl TypeScheme {
    /// Replaces the free occurrences of `x` by `ty`.
    pub fn substitute(&self, x: &Id, ty: &Type) -> (r: TypeScheme)
        ensures
            r@ == sch_subst(self@, x@, ty@),
        decreases self,
    {
        match self {
            TypeScheme::Poly { var, body } => {
                if x.eq(var) {
                    self.clone()
                } else {
                    TypeScheme::Poly { var: var.clone(), body: Box::new(body.substitute(x, ty)) }
                }
            },
            TypeScheme::Type(t) => TypeScheme::Type(t.substitute(x, ty)),
        }
    }

    /// Whether the scheme has at most `room` quantifiers.
    pub fn depth_within(&self, room: u64) -> (r: bool)
        ensures
            r == (depth(self@) <= room),
        decreases self,
    {
        match self {
            TypeScheme::Poly { body, .. } => room > 0 && body.depth_within(room - 1),
            TypeScheme::Type(_) => true,
        }
    }

    /// Replaces each quantified variable by a fresh one, outermost first.
    pub fn instantiate_with_fresh_vars(&self, supply: &mut NameSupply) -> (r: Type)
        requires
            old(supply).next + depth(self@) <= u64::MAX,
        ensures
            r@ == instantiate(self@, old(supply).next as nat),
            final(supply).next == old(supply).next + depth(self@),
        decreases depth(self@),
    {
        match self {
            TypeScheme::Poly { var, body } => {
                let v = Type::Var(fresh(supply));
                let inner = body.substitute(var, &v);
                proof {
                    lemma_sch_subst_depth(body@, var@, v@);
                }
                inner.instantiate_with_fresh_vars(supply)
            },
            TypeScheme::Type(t) => t.clone(),
        }
    }
}

/// The character of a decimal digit.
pub open spec fn digit_char(d: nat) -> char {
    if d == 0 { '0' } else if d == 1 { '1' } else if d == 2 { '2' } else if d == 3 { '3' }
    else if d == 4 { '4' } else if d == 5 { '5' } else if d == 6 { '6' } else if d == 7 { '7' }
    else if d == 8 { '8' } else { '9' }
}

/// The value of a decimal digit character.
pub open spec fn digit_value(c: char) -> nat {
    if c == '0' { 0 } else if c == '1' { 1 } else if c == '2' { 2 } else if c == '3' { 3 }
    else if c == '4' { 4 } else if c == '5' { 5 } else if c == '6' { 6 } else if c == '7' { 7 }
    else if c == '8' { 8 } else { 9 }
}

/// `n` written in decimal, without leading zeros.
pub open spec fn decimal(n: nat) -> Seq<char>
    decreases n,
{
    if n < 10 {
        seq![digit_char(n)]
    } else {
        decimal(n / 10).push(digit_char(n % 10))
    }
}

/// The number that a string of decimal digits denotes.
pub open spec fn decimal_value(s: Seq<char>) -> nat
    decreases s.len(),
{
    if s.len() == 0 {
        0
    } else {
        decimal_value(s.drop_last()) * 10 + digit_value(s.last())
    }
}

/// The `n`-th generated type variable: `a` followed by `n` in decimal.
pub open spec fn fresh_name(n: nat) -> Seq<char> {
    seq!['a'] + decimal(n)
}

/// Reading back the decimal digits of `n` gives `n`.
pub proof fn lemma_decimal_value(n: nat)
    ensures
        decimal_value(decimal(n)) == n,
    decreases n,
{
    let d = decimal(n);
    if n >= 10 {
        lemma_decimal_value(n / 10);
        assert(d.drop_last() =~= decimal(n / 10));
        assert(digit_value(digit_char(n % 10)) == n % 10);
        assert(d.last() == digit_char(n % 10));
        assert(decimal_value(d) == decimal_value(d.drop_last()) * 10 + digit_value(d.last()));
        assert(n == (n / 10) * 10 + n % 10);
    } else {
        assert(d.last() == digit_char(n));
        assert(decimal_value(d) == decimal_value(d.drop_last()) * 10 + digit_value(d.last()));
        assert(d.drop_last() =~= Seq::<char>::empty());
        assert(digit_value(digit_char(n)) == n);
    }
}

/// Distinct counter values give distinct generated names.
pub proof fn lemma_fresh_names_distinct(i: nat, j: nat)
    requires
        i != j,
    ensures
        fresh_name(i) != fresh_name(j),
{
    lemma_decimal_value(i);
    lemma_decimal_value(j);
    if fresh_name(i) == fresh_name(j) {
        assert(fresh_name(i).drop_first() =~= decimal(i));
        assert(fresh_name(j).drop_first() =~= decimal(j));
    }
}

/// The source of fresh type variables: the next counter value to hand out.
pub struct NameSupply {
    pub next: u64,
}

impl NameSupply {
    /// A supply whose first name is `a0`.
    pub fn new() -> (r: NameSupply)
        ensures
            r.next == 0,
    {
        NameSupply { next: 0 }
    }

    /// A supply that hands out names from the counter value `next` on.
    pub fn starting_at(next: u64) -> (r: NameSupply)
        ensures
            r.next == next,
    {
        NameSupply { next }
    }
}

/// The one-character string of a decimal digit.
fn digit_str(d: u64) -> (r: &'static str)
    requires
        d < 10,
    ensures
        r@ == seq![digit_char(d as nat)],
{
    let r = if d == 0 { "0" } else if d == 1 { "1" } else if d == 2 { "2" } else if d == 3 { "3" }
        else if d == 4 { "4" } else if d == 5 { "5" } else if d == 6 { "6" } else if d == 7 { "7" }
        else if d == 8 { "8" } else { "9" };
    proof {
        reveal_strlit("0");
        reveal_strlit("1");
        reveal_strlit("2");
        reveal_strlit("3");
        reveal_strlit("4");
        reveal_strlit("5");
        reveal_strlit("6");
        reveal_strlit("7");
        reveal_strlit("8");
        reveal_strlit("9");
        assert(r@ =~= seq![digit_char(d as nat)]);
    }
    r
}

/// Appends `n` in decimal to `s`.
fn push_decimal(s: &mut String, n: u64)
    ensures
        final(s)@ == old(s)@ + decimal(n as nat),
    decreases n,
{
    if n >= 10 {
        push_decimal(s, n / 10);
    }
    s.append(digit_str(n % 10));
    proof {
        assert(final(s)@ =~= old(s)@ + decimal(n as nat));
    }
}

/// Hands out the next generated type variable name and advances the counter.
pub fn fresh(supply: &mut NameSupply) -> (r: Id)
    requires
        old(supply).next < u64::MAX,
    ensures
        r@ == fresh_name(old(supply).next as nat),
        final(supply).next == old(supply).next + 1,
{
    let mut s = String::from_str("a");
    proof {
        reveal_strlit("a");
        assert(s@ =~= seq!['a']);
    }
    push_decimal(&mut s, supply.next);
    supply.next = supply.next + 1;
    s
}

/// Applying a substitution to a type that mentions none of its variables changes nothing.
pub proof fn lemma_substitute_untouched(t: Ty, s: Subst)
    requires
        forall|i: int| 0 <= i < s.len() ==> !vars(t).contains(#[trigger] s[i].0),
    ensures
        subst_all(t, s) == t,
    decreases s.len(),
{
    if s.len() > 0 {
        lemma_substitute_untouched(t, s.drop_last());
        lemma_subst_absent(t, s.last().0, s.last().1);
    }
}

proof fn lemma_subst_absent(t: Ty, x: Seq<char>, r: Ty)
    requires
        !vars(t).contains(x),
    ensures
        subst(t, x, r) == t,
    decreases t,
{
    if let Ty::Fun(a, b) = t {
        lemma_subst_absent(*a, x, r);
        lemma_subst_absent(*b, x, r);
    }
}

} // verus!
