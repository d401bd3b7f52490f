//! The structural type tree and its deliberately non-transitive equality.

use vstd::prelude::*;

verus! {

use vstd::string::StrSliceExecFns;

/// The mathematical model of a [`Type`]: the same tree with names as
/// character sequences.  Contracts speak about types through this model.
#[verifier::ext_equal]
pub enum TypeModel {
    TypeList { name: Box<TypeModel>, parameters: Seq<TypeModel> },
    Function { parameters: Seq<TypeModel>, effects: Seq<TypeModel>, return_type: Box<TypeModel> },
    Single(Seq<char>),
    Tuple(Seq<TypeModel>),
    Ref(Box<TypeModel>),
    Alias(Box<TypeModel>, Box<TypeModel>),
    Unit,
}

/// The models of a sequence of types, element by element.
pub open spec fn models_of(ts: Seq<Type>) -> Seq<TypeModel>
    decreases ts,
{
    if ts.len() == 0 {
        Seq::empty()
    } else {
        models_of(ts.drop_last()).push(ts.last().model())
    }
}

/// `models_of` maps each element of the sequence to its model.
pub proof fn lemma_models_of(ts: Seq<Type>)
    ensures
        (#[trigger] models_of(ts)).len() == ts.len(),
        forall|i: int| 0 <= i < ts.len() ==> models_of(ts)[i] == (#[trigger] ts[i]).model(),
    decreases ts,
{
    if ts.len() > 0 {
        lemma_models_of(ts.drop_last());
        assert forall|i: int| 0 <= i < ts.len() implies models_of(ts)[i] == (
        #[trigger] ts[i]).model() by {
            if i < ts.len() - 1 {
                assert(ts.drop_last()[i] == ts[i]);
            } else {
                assert(ts[i] == ts.last());
            }
        }
    }
}

impl Type {
    /// The mathematical model of this type.
    pub open spec fn model(&self) -> TypeModel
        decreases self,
    {
        match self {
            Type::TypeList { name, parameters } => TypeModel::TypeList {
                name: Box::new((**name).model()),
                parameters: models_of(parameters@),
            },
            Type::Function { parameters, effects, return_type } => TypeModel::Function {
                parameters: models_of(parameters@),
                effects: models_of(effects@),
                return_type: Box::new((**return_type).model()),
            },
            Type::Single(name) => TypeModel::Single(name@),
            Type::Tuple(components) => TypeModel::Tuple(models_of(components@)),
            Type::Ref(inner) => TypeModel::Ref(Box::new((**inner).model())),
            Type::Alias(from, to) => TypeModel::Alias(
                Box::new((**from).model()),
                Box::new((**to).model()),
            ),
            Type::Unit => TypeModel::Unit,
        }
    }
}

impl View for Type {
    type V = TypeModel;

    open spec fn view(&self) -> TypeModel {
        self.model()
    }
}

/// A structural type tree: scalar name, tuple, function signature, generic
/// application, reference, alias, unit.  Types are immutable once built and
/// are shared by deep copy.
#[derive(Debug)]
pub enum Type {
    /// A generic application, such as a list of some element type.
    TypeList { name: Box<Type>, parameters: Vec<Type> },
    /// A function signature: parameter types, effect types, return type.
    Function { parameters: Vec<Type>, effects: Vec<Type>, return_type: Box<Type> },
    /// A scalar type name, such as `Int`.
    Single(String),
    /// A tuple of component types.
    Tuple(Vec<Type>),
    /// A reference onto another type; transparent for equality.
    Ref(Box<Type>),
    /// An alias from one type to another; equality resolves to the target.
    Alias(Box<Type>, Box<Type>),
    /// The unit type.
    Unit,
}

/// Whether two scalar type names unify: the literal name `Any` and any
/// single-character name (a generic-variable wildcard) unify with every
/// name; otherwise the names must be identical.
pub open spec fn name_matches(a: Seq<char>, b: Seq<char>) -> bool {
    a == "Any"@ || b == "Any"@ || a.len() == 1 || b.len() == 1 || a == b
}

/// The custom structural equality used for type-checking and as a dispatch
/// key.  It is symmetric but deliberately not transitive: wildcard names
/// unify with everything, and `Ref` and `Alias` are transparent (they are
/// unwrapped before comparing).
pub open spec fn type_equal(a: TypeModel, b: TypeModel) -> bool
    decreases a, b,
{
    match (a, b) {
        (TypeModel::Single(x), TypeModel::Single(y)) => name_matches(x, y),
        (TypeModel::Tuple(xs), TypeModel::Tuple(ys)) => {
            &&& xs.len() == ys.len()
            &&& forall|i: int| 0 <= i < xs.len() ==> type_equal(#[trigger] xs[i], ys[i])
        },
        (
            TypeModel::Function { parameters: xp, effects: xe, return_type: xr },
            TypeModel::Function { parameters: yp, effects: ye, return_type: yr },
        ) => {
            &&& xp.len() == yp.len()
            &&& forall|i: int| 0 <= i < xp.len() ==> type_equal(#[trigger] xp[i], yp[i])
            &&& xe.len() == ye.len()
            &&& forall|i: int| 0 <= i < xe.len() ==> type_equal(#[trigger] xe[i], ye[i])
            &&& type_equal(*xr, *yr)
        },
        (
            TypeModel::TypeList { name: xn, parameters: xp },
            TypeModel::TypeList { name: yn, parameters: yp },
        ) => {
            &&& type_equal(*xn, *yn)
            &&& xp.len() == yp.len()
            &&& forall|i: int| 0 <= i < xp.len() ==> type_equal(#[trigger] xp[i], yp[i])
        },
        (TypeModel::Unit, TypeModel::Unit) => true,
        (TypeModel::Ref(x), y) => type_equal(*x, y),
        (TypeModel::Alias(_, to), y) => type_equal(*to, y),
        (x, TypeModel::Ref(y)) => type_equal(x, *y),
        (x, TypeModel::Alias(_, to)) => type_equal(x, *to),
        _ => false,
    }
}

impl Type {
    /// Whether this type is a reference type.
    pub fn is_reference(&self) -> (r: bool)
        ensures
            r == (self is Ref),
    {
        match self {
            Type::Ref(_) => true,
            _ => false,
        }
    }

    /// Decides the custom equality relation `type_equal`.
    pub fn equal(&self, other: &Type) -> (r: bool)
        ensures
            r == type_equal(self@, other@),
        decreases *self, *other,
    {
        match (self, other) {
            (Type::Single(a), Type::Single(b)) => {
                let any: String = "Any".to_owned();
                if *a == any || *b == any {
                    true
                } else if a.as_str().unicode_len() == 1 || b.as_str().unicode_len() == 1 {
                    true
                } else {
                    *a == *b
                }
            },
            (Type::Tuple(xs), Type::Tuple(ys)) => types_equal(xs, ys),
            (
                Type::Function { parameters: xp, effects: xe, return_type: xr },
                Type::Function { parameters: yp, effects: ye, return_type: yr },
            ) => types_equal(xp, yp) && types_equal(xe, ye) && xr.equal(yr),
            (
                Type::TypeList { name: xn, parameters: xp },
                Type::TypeList { name: yn, parameters: yp },
            ) => xn.equal(yn) && types_equal(xp, yp),
            (Type::Unit, Type::Unit) => true,
            (Type::Ref(x), y) => x.equal(y),
            (Type::Alias(_, to), y) => to.equal(y),
            (x, Type::Ref(y)) => x.equal(y),
            (x, Type::Alias(_, to)) => x.equal(to),
            _ => false,
        }
    }
}

/// Elementwise `type_equal` over two type vectors of equal length.
fn types_equal(xs: &Vec<Type>, ys: &Vec<Type>) -> (r: bool)
    ensures
        r == (models_of(xs@).len() == models_of(ys@).len() && forall|i: int|
            0 <= i < models_of(xs@).len() ==> type_equal(
                #[trigger] models_of(xs@)[i],
                models_of(ys@)[i],
            )),
    decreases *xs, *ys,
{
    proof {
        lemma_models_of(xs@);
        lemma_models_of(ys@);
    }
    if xs.len() != ys.len() {
        return false;
    }
    let n = xs.len();
    let mut i: usize = 0;
    while i < n
        invariant
            n == xs@.len() == ys@.len(),
            models_of(xs@).len() == n,
            models_of(ys@).len() == n,
            i <= n,
            forall|j: int| 0 <= j < i ==> type_equal(
                #[trigger] models_of(xs@)[j],
                models_of(ys@)[j],
            ),
        decreases n - i,
    {
        let e = xs[i].equal(&ys[i]);
        proof {
            lemma_models_of(xs@);
            lemma_models_of(ys@);
            assert(models_of(xs@)[i as int] == xs@[i as int].model());
            assert(models_of(ys@)[i as int] == ys@[i as int].model());
        }
        if !e {
            return false;
        }
        i += 1;
    }
    true
}

/// Deep copies of a sequence of types, element by element.
pub(crate) fn dup_types(xs: &Vec<Type>) -> (r: Vec<Type>)
    ensures
        models_of(r@) == models_of(xs@),
    decreases *xs,
{
    let mut out: Vec<Type> = Vec::new();
    let n = xs.len();
    let mut i: usize = 0;
    while i < n
        invariant
            n == xs@.len(),
            out@.len() == i <= n,
            forall|j: int| 0 <= j < i ==> (#[trigger] out@[j]).model() == xs@[j].model(),
        decreases n - i,
    {
        let t = xs[i].dup();
        out.push(t);
        i += 1;
    }
    proof {
        lemma_models_of(out@);
        lemma_models_of(xs@);
        assert forall|j: int| 0 <= j < xs@.len() implies models_of(out@)[j] == models_of(
            xs@,
        )[j] by {
            assert(models_of(out@)[j] == out@[j].model());
            assert(models_of(xs@)[j] == xs@[j].model());
        }
        assert(models_of(out@) =~= models_of(xs@));
    }
    out
}

impl Type {
    /// A deep structural copy with the same model.
    pub fn dup(&self) -> (r: Type)
        ensures
            r@ == self@,
        decreases *self,
    {
        match self {
            Type::TypeList { name, parameters } => Type::TypeList {
                name: Box::new(name.dup()),
                parameters: dup_types(parameters),
            },
            Type::Function { parameters, effects, return_type } => Type::Function {
                parameters: dup_types(parameters),
                effects: dup_types(effects),
                return_type: Box::new(return_type.dup()),
            },
            Type::Single(name) => Type::Single(name.clone()),
            Type::Tuple(components) => Type::Tuple(dup_types(components)),
            Type::Ref(inner) => Type::Ref(Box::new(inner.dup())),
            Type::Alias(from, to) => Type::Alias(Box::new(from.dup()), Box::new(to.dup())),
            Type::Unit => Type::Unit,
        }
    }
}

/// Derivation of a type from a value-like or type-like thing, together with
/// a check for reference types.  Declared parameter and variable types are
/// optional; an absent type reads as the wildcard `Any`.
pub trait TypeUtils {
    /// The model of the type that `get_type` returns.
    spec fn spec_type(&self) -> TypeModel;

    /// Whether `is_ref` holds.
    spec fn spec_is_ref(&self) -> bool;

    /// The type this thing stands for.
    fn get_type(&self) -> (t: Type)
        ensures
            t@ == self.spec_type(),
    ;

    /// Whether this thing stands for a reference type.
    fn is_ref(&self) -> (r: bool)
        ensures
            r == self.spec_is_ref(),
    ;
}

impl TypeUtils for Type {
    open spec fn spec_type(&self) -> TypeModel {
        self.model()
    }

    open spec fn spec_is_ref(&self) -> bool {
        self is Ref
    }

    fn get_type(&self) -> (t: Type) {
        self.dup()
    }

    fn is_ref(&self) -> (r: bool) {
        match self {
            Type::Ref(_) => true,
            _ => false,
        }
    }
}

impl TypeUtils for Option<Type> {
    open spec fn spec_type(&self) -> TypeModel {
        match self {
            Some(t) => t.model(),
            None => TypeModel::Single("Any"@),
        }
    }

    open spec fn spec_is_ref(&self) -> bool {
        match self {
            Some(t) => t is Ref,
            None => false,
        }
    }

    fn get_type(&self) -> (t: Type) {
        match self {
            Some(t) => t.dup(),
            None => Type::Single("Any".to_owned()),
        }
    }

    fn is_ref(&self) -> (r: bool) {
        match self {
            Some(t) => t.is_reference(),
            None => false,
        }
    }
}

/// Unwrapping a reference on the right-hand side does not change equality:
/// `type_equal(a, Ref(b)) == type_equal(a, b)`.
proof fn lemma_type_equal_ref_right(a: TypeModel, b: TypeModel)
    ensures
        type_equal(a, TypeModel::Ref(Box::new(b))) == type_equal(a, b),
    decreases a,
{
    match a {
        TypeModel::Ref(x) => lemma_type_equal_ref_right(*x, b),
        TypeModel::Alias(_, to) => lemma_type_equal_ref_right(*to, b),
        _ => {},
    }
}

/// Unwrapping an alias on the right-hand side does not change equality:
/// `type_equal(a, Alias(f, t)) == type_equal(a, t)`.
proof fn lemma_type_equal_alias_right(a: TypeModel, f: TypeModel, t: TypeModel)
    ensures
        type_equal(a, TypeModel::Alias(Box::new(f), Box::new(t))) == type_equal(a, t),
    decreases a,
{
    match a {
        TypeModel::Ref(x) => lemma_type_equal_alias_right(*x, f, t),
        TypeModel::Alias(_, to) => lemma_type_equal_alias_right(*to, f, t),
        _ => {},
    }
}

/// The custom type equality is symmetric for every pair of types.
pub proof fn lemma_type_equal_symmetric(a: TypeModel, b: TypeModel)
    ensures
        type_equal(a, b) == type_equal(b, a),
    decreases a, b,
{
    match (a, b) {
        (TypeModel::Tuple(xs), TypeModel::Tuple(ys)) => {
            assert forall|i: int| 0 <= i < xs.len() && 0 <= i < ys.len() implies type_equal(
                #[trigger] xs[i],
                ys[i],
            ) == type_equal(#[trigger] ys[i], xs[i]) by {
                lemma_type_equal_symmetric(xs[i], ys[i]);
            }
        },
        (
            TypeModel::Function { parameters: xp, effects: xe, return_type: xr },
            TypeModel::Function { parameters: yp, effects: ye, return_type: yr },
        ) => {
            assert forall|i: int| 0 <= i < xp.len() && 0 <= i < yp.len() implies type_equal(
                #[trigger] xp[i],
                yp[i],
            ) == type_equal(#[trigger] yp[i], xp[i]) by {
                lemma_type_equal_symmetric(xp[i], yp[i]);
            }
            assert forall|i: int| 0 <= i < xe.len() && 0 <= i < ye.len() implies type_equal(
                #[trigger] xe[i],
                ye[i],
            ) == type_equal(#[trigger] ye[i], xe[i]) by {
                lemma_type_equal_symmetric(xe[i], ye[i]);
            }
            lemma_type_equal_symmetric(*xr, *yr);
        },
        (
            TypeModel::TypeList { name: xn, parameters: xp },
            TypeModel::TypeList { name: yn, parameters: yp },
        ) => {
            lemma_type_equal_symmetric(*xn, *yn);
            assert forall|i: int| 0 <= i < xp.len() && 0 <= i < yp.len() implies type_equal(
                #[trigger] xp[i],
                yp[i],
            ) == type_equal(#[trigger] yp[i], xp[i]) by {
                lemma_type_equal_symmetric(xp[i], yp[i]);
            }
        },
        (TypeModel::Ref(x), _) => {
            lemma_type_equal_symmetric(*x, b);
            lemma_type_equal_ref_right(b, *x);
        },
        (_, TypeModel::Ref(y)) => {
            lemma_type_equal_symmetric(a, *y);
            lemma_type_equal_ref_right(a, *y);
        },
        (TypeModel::Alias(from, to), _) => {
            lemma_type_equal_symmetric(*to, b);
            lemma_type_equal_alias_right(b, *from, *to);
        },
        (_, TypeModel::Alias(from, to)) => {
            lemma_type_equal_symmetric(a, *to);
            lemma_type_equal_alias_right(a, *from, *to);
        },
        _ => {},
    }
}

/// The custom type equality is not transitive: the single-character name
/// `a` unifies with both `Int` and `Float`, yet `Int` and `Float` do not
/// unify with each other.
pub proof fn lemma_type_equal_not_transitive()
    ensures
        type_equal(TypeModel::Single("a"@), TypeModel::Single("Int"@)),
        type_equal(TypeModel::Single("a"@), TypeModel::Single("Float"@)),
        !type_equal(TypeModel::Single("Int"@), TypeModel::Single("Float"@)),
{
    reveal_strlit("a");
    reveal_strlit("Any");
    reveal_strlit("Int");
    reveal_strlit("Float");
    assert("a"@.len() == 1);
    assert("Int"@.len() == 3);
    assert("Float"@.len() == 5);
    assert("Int"@[0] == 'I' && "Any"@[0] == 'A');
    assert("Int"@ != "Any"@);
    assert("Float"@[0] == 'F' && "Any"@[0] == 'A');
    assert("Float"@ != "Any"@);
    assert("Int"@ != "Float"@);
    assert(!name_matches("Int"@, "Float"@));
}

/// The rendering of a type list joined by `", "`.
pub open spec fn render_join(ts: Seq<TypeModel>) -> Seq<char>
    decreases ts,
{
    if ts.len() == 0 {
        Seq::empty()
    } else if ts.len() == 1 {
        render_of(ts[0])
    } else {
        render_join(ts.drop_last()) + ", "@ + render_of(ts.last())
    }
}

/// The rendering of an effect list, each effect followed by a space.
pub open spec fn render_effects(ts: Seq<TypeModel>) -> Seq<char>
    decreases ts,
{
    if ts.len() == 0 {
        Seq::empty()
    } else {
        render_effects(ts.drop_last()) + render_of(ts.last()) + " "@
    }
}

/// The rendering of a parameter list, each preceded by a space.
pub open spec fn render_applied(ts: Seq<TypeModel>) -> Seq<char>
    decreases ts,
{
    if ts.len() == 0 {
        Seq::empty()
    } else {
        render_applied(ts.drop_last()) + " "@ + render_of(ts.last())
    }
}

/// The surface syntax of a type, used for error messages.
pub open spec fn render_of(t: TypeModel) -> Seq<char>
    decreases t,
{
    match t {
        TypeModel::Single(name) => name,
        TypeModel::Tuple(ts) => "("@ + render_join(ts) + ")"@,
        TypeModel::Function { parameters, effects, return_type } => "fn("@ + render_join(
            parameters,
        ) + ")"@ + render_effects(effects) + "-> "@ + render_of(*return_type),
        TypeModel::TypeList { name, parameters } => "("@ + render_of(*name) + render_applied(
            parameters,
        ) + ")"@,
        TypeModel::Unit => "()"@,
        TypeModel::Ref(inner) => "&"@ + render_of(*inner),
        TypeModel::Alias(_, to) => render_of(*to),
    }
}

/// Renders a type vector joined by `", "`.
fn render_joined(ts: &Vec<Type>) -> (r: String)
    ensures
        r@ == render_join(models_of(ts@)),
    decreases *ts,
{
    let mut out = String::new();
    let n = ts.len();
    proof {
        lemma_models_of(ts@);
        assert(models_of(ts@).subrange(0, 0) =~= Seq::<TypeModel>::empty());
    }
    let mut i: usize = 0;
    while i < n
        invariant
            n == ts@.len(),
            models_of(ts@).len() == n,
            i <= n,
            out@ == render_join(models_of(ts@).subrange(0, i as int)),
        decreases n - i,
    {
        proof {
            lemma_models_of(ts@);
        }
        if i > 0 {
            out.append(", ");
        }
        let piece = ts[i].render();
        out.append(piece.as_str());
        proof {
            let ms = models_of(ts@);
            assert(ms.subrange(0, i as int + 1).drop_last() =~= ms.subrange(0, i as int));
            assert(ms.subrange(0, i as int + 1).last() == ms[i as int]);
            assert(ms[i as int] == ts@[i as int].model());
            if i == 0 {
                assert(out@ =~= render_join(ms.subrange(0, 1)));
            } else {
                assert(out@ =~= render_join(ms.subrange(0, i as int + 1)));
            }
        }
        i += 1;
    }
    proof {
        assert(models_of(ts@).subrange(0, n as int) =~= models_of(ts@));
    }
    out
}

/// Renders an effect list, each effect followed by a space.
fn render_effects_vec(ts: &Vec<Type>) -> (r: String)
    ensures
        r@ == render_effects(models_of(ts@)),
    decreases *ts,
{
    let mut out = String::new();
    let n = ts.len();
    proof {
        lemma_models_of(ts@);
        assert(models_of(ts@).subrange(0, 0) =~= Seq::<TypeModel>::empty());
    }
    let mut i: usize = 0;
    while i < n
        invariant
            n == ts@.len(),
            models_of(ts@).len() == n,
            i <= n,
            out@ == render_effects(models_of(ts@).subrange(0, i as int)),
        decreases n - i,
    {
        proof {
            lemma_models_of(ts@);
        }
        let piece = ts[i].render();
        out.append(piece.as_str());
        out.append(" ");
        proof {
            let ms = models_of(ts@);
            assert(ms.subrange(0, i as int + 1).drop_last() =~= ms.subrange(0, i as int));
            assert(ms.subrange(0, i as int + 1).last() == ms[i as int]);
            assert(ms[i as int] == ts@[i as int].model());
            assert(out@ =~= render_effects(ms.subrange(0, i as int + 1)));
        }
        i += 1;
    }
    proof {
        assert(models_of(ts@).subrange(0, n as int) =~= models_of(ts@));
    }
    out
}

/// Renders an applied parameter list, each preceded by a space.
fn render_applied_vec(ts: &Vec<Type>) -> (r: String)
    ensures
        r@ == render_applied(models_of(ts@)),
    decreases *ts,
{
    let mut out = String::new();
    let n = ts.len();
    proof {
        lemma_models_of(ts@);
        assert(models_of(ts@).subrange(0, 0) =~= Seq::<TypeModel>::empty());
    }
    let mut i: usize = 0;
    while i < n
        invariant
            n == ts@.len(),
            models_of(ts@).len() == n,
            i <= n,
            out@ == render_applied(models_of(ts@).subrange(0, i as int)),
        decreases n - i,
    {
        proof {
            lemma_models_of(ts@);
        }
        out.append(" ");
        let piece = ts[i].render();
        out.append(piece.as_str());
        proof {
            let ms = models_of(ts@);
            assert(ms.subrange(0, i as int + 1).drop_last() =~= ms.subrange(0, i as int));
            assert(ms.subrange(0, i as int + 1).last() == ms[i as int]);
            assert(ms[i as int] == ts@[i as int].model());
            assert(out@ =~= render_applied(ms.subrange(0, i as int + 1)));
        }
        i += 1;
    }
    proof {
        assert(models_of(ts@).subrange(0, n as int) =~= models_of(ts@));
    }
    out
}

impl Type {
    /// Renders this type to its surface syntax, used for error messages.
    pub fn render(&self) -> (r: String)
        ensures
            r@ == render_of(self@),
        decreases *self,
    {
        match self {
            Type::Single(name) => name.clone(),
            Type::Tuple(ts) => {
                let mut out: String = "(".to_owned();
                let middle = render_joined(ts);
                out.append(middle.as_str());
                out.append(")");
                proof {
                    assert(out@ =~= render_of(self@));
                }
                out
            },
            Type::Function { parameters, effects, return_type } => {
                let mut out: String = "fn(".to_owned();
                let params = render_joined(parameters);
                out.append(params.as_str());
                out.append(")");
                let eff = render_effects_vec(effects);
                out.append(eff.as_str());
                out.append("-> ");
                let ret = return_type.render();
                out.append(ret.as_str());
                proof {
                    assert(out@ =~= render_of(self@));
                }
                out
            },
            Type::TypeList { name, parameters } => {
                let mut out: String = "(".to_owned();
                let head = name.render();
                out.append(head.as_str());
                let applied = render_applied_vec(parameters);
                out.append(applied.as_str());
                out.append(")");
                proof {
                    assert(out@ =~= render_of(self@));
                }
                out
            },
            Type::Unit => "()".to_owned(),
            Type::Ref(inner) => {
                let mut out: String = "&".to_owned();
                let rest = inner.render();
                out.append(rest.as_str());
                proof {
                    assert(out@ =~= render_of(self@));
                }
                out
            },
            Type::Alias(_, to) => to.render(),
        }
    }
}

impl PartialEq for Type {
    /// The `==` of types is the custom equality relation, not structural
    /// equality.
    fn eq(&self, other: &Type) -> (r: bool) {
        self.equal(other)
    }
}

impl vstd::std_specs::cmp::PartialEqSpecImpl for Type {
    open spec fn obeys_eq_spec() -> bool {
        true
    }

    open spec fn eq_spec(&self, other: &Type) -> bool {
        type_equal(self@, other@)
    }
}

} // verus!
