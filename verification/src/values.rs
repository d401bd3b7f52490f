//! The tagged runtime value model, reference cells, and type derivation.
//!
//! A `Ref` value is a live alias onto another value's storage.  Storage is
//! an explicit slot [`Store`]: a `Ref` holds a slot index, and every holder
//! of the same index observes the same cell.  Slot contents are kept free
//! of further references, so reads through a reference terminate.

use vstd::prelude::*;

verus! {

use crate::scope::Scope;
use crate::types::{lemma_models_of, models_of, Type, TypeModel};

/// Whether an algebraic data instance is a sum or a product.
#[derive(Debug, Clone, Copy, PartialEq, Eq, Structural)]
pub enum AlgebraicType {
    Sum,
    Product,
}

/// A live alias onto a value cell: an index into a [`Store`].
#[derive(Debug, Clone, PartialEq)]
pub struct ValRef {
    /// The slot this reference aliases.
    pub index: usize,
}

impl ValRef {
    /// Wraps `value` into a fresh cell of the store and returns the
    /// reference that aliases it.
    pub fn new(value: Value, store: &mut Store) -> (r: ValRef)
        requires
            old(store).wf(),
            ref_free(value@),
            scopes_wf(value@),
        ensures
            final(store)@ == old(store)@.push(value@),
            final(store).wf(),
            r.index == old(store)@.len(),
    {
        let index = store.slots.len();
        proof {
            lemma_value_models_of(store.slots@);
        }
        let ghost m = value@;
        store.slots.push(value);
        proof {
            lemma_value_models_of(store.slots@);
            assert forall|j: int| 0 <= j < store.slots@.len() implies store@[j] == old(
                store,
            )@.push(m)[j] by {
                assert(store@[j] == store.slots@[j].model());
                if j < old(store).slots@.len() {
                    assert(store.slots@[j] == old(store).slots@[j]);
                    assert(old(store)@[j] == old(store).slots@[j].model());
                }
            }
            assert(store@ =~= old(store)@.push(m));
        }
        ValRef { index }
    }

    /// The current contents of the cell this reference aliases.
    pub fn borrow<'a>(&self, store: &'a Store) -> (r: &'a Value)
        requires
            self.index < store@.len(),
        ensures
            r@ == store@[self.index as int],
    {
        proof {
            lemma_value_models_of(store.slots@);
        }
        &store.slots[self.index]
    }
}

/// A tagged runtime value.
///
/// `Promise` and `Ref` are non-duplicable: a promise is a unique handle to
/// in-flight work, and a reference must never be silently aliased.  A
/// float is carried as its bit pattern; this core never computes on it.
#[derive(Debug, PartialEq)]
pub enum Value {
    Int(i64),
    UInt(u64),
    Float(u64),
    Char(char),
    Byte(u8),
    List(Vec<Value>, Type),
    Tuple(Vec<Value>),
    Function {
        /// Whether a call spawns the body on a new thread.
        threaded: bool,
        /// Parameter names with their optional declared types.
        parameters: Vec<(String, Option<Type>)>,
        /// Effect types.
        effects: Vec<Type>,
        /// Declared return type.
        return_type: Box<Type>,
        /// Captured closure scope.
        closure: Scope,
        /// Opaque body handle for the outside evaluator.
        body: String,
    },
    /// The future result of a spawned call: an opaque thread handle and the
    /// declared return type.
    Promise(u64, Type),
    Algebraic {
        agb_type: AlgebraicType,
        types: Vec<Type>,
        name: String,
        values: Vec<(Type, Value)>,
    },
    Alias {
        parent: Type,
        name: Type,
        value: Box<Value>,
    },
    Ref(ValRef),
}

/// The mathematical model of a [`Value`].
#[verifier::ext_equal]
pub enum ValueModel {
    Int(i64),
    UInt(u64),
    Float(u64),
    Char(char),
    Byte(u8),
    List(Seq<ValueModel>, TypeModel),
    Tuple(Seq<ValueModel>),
    Function {
        threaded: bool,
        parameters: Seq<(Seq<char>, Option<TypeModel>)>,
        effects: Seq<TypeModel>,
        return_type: TypeModel,
        closure: Seq<(Seq<char>, ValueModel)>,
        body: Seq<char>,
    },
    Promise(u64, TypeModel),
    Algebraic {
        agb_type: AlgebraicType,
        types: Seq<TypeModel>,
        name: Seq<char>,
        values: Seq<(TypeModel, ValueModel)>,
    },
    Alias {
        parent: TypeModel,
        name: TypeModel,
        value: Box<ValueModel>,
    },
    Ref(usize),
}

/// The models of a sequence of values, element by element.
pub open spec fn value_models_of(vs: Seq<Value>) -> Seq<ValueModel>
    decreases vs,
{
    if vs.len() == 0 {
        Seq::empty()
    } else {
        value_models_of(vs.drop_last()).push(vs.last().model())
    }
}

/// The models of a sequence of (type, value) pairs, element by element.
pub open spec fn pair_models_of(vs: Seq<(Type, Value)>) -> Seq<(TypeModel, ValueModel)>
    decreases vs,
{
    if vs.len() == 0 {
        Seq::empty()
    } else {
        pair_models_of(vs.drop_last()).push((vs.last().0.model(), vs.last().1.model()))
    }
}

/// The model of an optional declared type.
pub open spec fn opt_model_of(o: Option<Type>) -> Option<TypeModel> {
    match o {
        Some(t) => Some(t.model()),
        None => None,
    }
}

/// The models of a parameter list, element by element.
pub open spec fn param_models_of(ps: Seq<(String, Option<Type>)>) -> Seq<
    (Seq<char>, Option<TypeModel>),
> {
    Seq::new(ps.len(), |i: int| (ps[i].0@, opt_model_of(ps[i].1)))
}

/// `value_models_of` maps each element to its model.
pub proof fn lemma_value_models_of(vs: Seq<Value>)
    ensures
        value_models_of(vs).len() == vs.len(),
        forall|i: int| 0 <= i < vs.len() ==> #[trigger] value_models_of(vs)[i] == vs[i].model(),
    decreases vs,
{
    if vs.len() > 0 {
        lemma_value_models_of(vs.drop_last());
        assert forall|i: int| 0 <= i < vs.len() implies #[trigger] value_models_of(vs)[i]
            == vs[i].model() by {
            if i < vs.len() - 1 {
                assert(vs.drop_last()[i] == vs[i]);
            } else {
                assert(vs[i] == vs.last());
            }
        }
    }
}

/// `pair_models_of` maps each pair to its model.
pub proof fn lemma_pair_models_of(vs: Seq<(Type, Value)>)
    ensures
        pair_models_of(vs).len() == vs.len(),
        forall|i: int| 0 <= i < vs.len() ==> #[trigger] pair_models_of(vs)[i] == (
        vs[i].0.model(),
        vs[i].1.model(),
        ),
    decreases vs,
{
    if vs.len() > 0 {
        lemma_pair_models_of(vs.drop_last());
        assert forall|i: int| 0 <= i < vs.len() implies #[trigger] pair_models_of(vs)[i] == (
        vs[i].0.model(),
        vs[i].1.model(),
        ) by {
            if i < vs.len() - 1 {
                assert(vs.drop_last()[i] == vs[i]);
            } else {
                assert(vs[i] == vs.last());
            }
        }
    }
}

impl Value {
    /// The mathematical model of this value.
    pub open spec fn model(&self) -> ValueModel
        decreases self,
    {
        match self {
            Value::Int(i) => ValueModel::Int(*i),
            Value::UInt(i) => ValueModel::UInt(*i),
            Value::Float(bits) => ValueModel::Float(*bits),
            Value::Char(c) => ValueModel::Char(*c),
            Value::Byte(b) => ValueModel::Byte(*b),
            Value::List(vs, t) => ValueModel::List(value_models_of(vs@), t.model()),
            Value::Tuple(vs) => ValueModel::Tuple(value_models_of(vs@)),
            Value::Function { threaded, parameters, effects, return_type, closure, body } => {
                ValueModel::Function {
                    threaded: *threaded,
                    parameters: param_models_of(parameters@),
                    effects: models_of(effects@),
                    return_type: (**return_type).model(),
                    closure: closure@,
                    body: body@,
                }
            },
            Value::Promise(handle, t) => ValueModel::Promise(*handle, t.model()),
            Value::Algebraic { agb_type, types, name, values } => ValueModel::Algebraic {
                agb_type: *agb_type,
                types: models_of(types@),
                name: name@,
                values: pair_models_of(values@),
            },
            Value::Alias { parent, name, value } => ValueModel::Alias {
                parent: parent.model(),
                name: name.model(),
                value: Box::new((**value).model()),
            },
            Value::Ref(r) => ValueModel::Ref(r.index),
        }
    }
}

impl View for Value {
    type V = ValueModel;

    open spec fn view(&self) -> ValueModel {
        self.model()
    }
}

/// Whether a value contains no reference anywhere.  Cell contents are kept
/// reference-free, so reads through a reference terminate.
pub open spec fn ref_free(m: ValueModel) -> bool
    decreases m,
{
    match m {
        ValueModel::List(vs, _) => forall|i: int| 0 <= i < vs.len() ==> ref_free(#[trigger] vs[i]),
        ValueModel::Tuple(vs) => forall|i: int| 0 <= i < vs.len() ==> ref_free(#[trigger] vs[i]),
        ValueModel::Function { closure, .. } => forall|i: int|
            0 <= i < closure.len() ==> ref_free((#[trigger] closure[i]).1),
        ValueModel::Algebraic { values, .. } => forall|i: int|
            0 <= i < values.len() ==> ref_free((#[trigger] values[i]).1),
        ValueModel::Alias { value, .. } => ref_free(*value),
        ValueModel::Ref(_) => false,
        _ => true,
    }
}

/// Whether a value may be copied.  A `Promise` is a unique handle to
/// in-flight work and a `Ref` must never be silently aliased, so a value
/// containing either is non-duplicable.
pub open spec fn duplicable(m: ValueModel) -> bool
    decreases m,
{
    match m {
        ValueModel::List(vs, _) => forall|i: int|
            0 <= i < vs.len() ==> duplicable(#[trigger] vs[i]),
        ValueModel::Tuple(vs) => forall|i: int| 0 <= i < vs.len() ==> duplicable(#[trigger] vs[i]),
        ValueModel::Function { closure, .. } => forall|i: int|
            0 <= i < closure.len() ==> duplicable((#[trigger] closure[i]).1),
        ValueModel::Algebraic { values, .. } => forall|i: int|
            0 <= i < values.len() ==> duplicable((#[trigger] values[i]).1),
        ValueModel::Alias { value, .. } => duplicable(*value),
        ValueModel::Ref(_) => false,
        ValueModel::Promise(_, _) => false,
        _ => true,
    }
}

/// Whether every reference inside a value points into a store of `n` slots.
pub open spec fn val_wf(m: ValueModel, n: nat) -> bool
    decreases m,
{
    match m {
        ValueModel::List(vs, _) => forall|i: int| 0 <= i < vs.len() ==> val_wf(#[trigger] vs[i], n),
        ValueModel::Tuple(vs) => forall|i: int| 0 <= i < vs.len() ==> val_wf(#[trigger] vs[i], n),
        ValueModel::Function { closure, .. } => forall|i: int|
            0 <= i < closure.len() ==> val_wf((#[trigger] closure[i]).1, n),
        ValueModel::Algebraic { values, .. } => forall|i: int|
            0 <= i < values.len() ==> val_wf((#[trigger] values[i]).1, n),
        ValueModel::Alias { value, .. } => val_wf(*value, n),
        ValueModel::Ref(i) => i < n,
        _ => true,
    }
}

/// Whether every scope captured inside a value has unique entry names.
pub open spec fn scopes_wf(m: ValueModel) -> bool
    decreases m,
{
    match m {
        ValueModel::List(vs, _) => forall|i: int| 0 <= i < vs.len() ==> scopes_wf(#[trigger] vs[i]),
        ValueModel::Tuple(vs) => forall|i: int| 0 <= i < vs.len() ==> scopes_wf(#[trigger] vs[i]),
        ValueModel::Function { closure, .. } => crate::scope::assoc_unique(closure) && forall|i: int|
            0 <= i < closure.len() ==> scopes_wf((#[trigger] closure[i]).1),
        ValueModel::Algebraic { values, .. } => forall|i: int|
            0 <= i < values.len() ==> scopes_wf((#[trigger] values[i]).1),
        ValueModel::Alias { value, .. } => scopes_wf(*value),
        _ => true,
    }
}

/// A reference-free value is well formed for any store size.
pub proof fn lemma_ref_free_val_wf(m: ValueModel, n: nat)
    ensures
        ref_free(m) ==> val_wf(m, n),
    decreases m,
{
    match m {
        ValueModel::List(vs, _) => {
            assert forall|i: int| 0 <= i < vs.len() implies (ref_free(#[trigger] vs[i]) ==> val_wf(
                vs[i],
                n,
            )) by {
                lemma_ref_free_val_wf(vs[i], n);
            }
        },
        ValueModel::Tuple(vs) => {
            assert forall|i: int| 0 <= i < vs.len() implies (ref_free(#[trigger] vs[i]) ==> val_wf(
                vs[i],
                n,
            )) by {
                lemma_ref_free_val_wf(vs[i], n);
            }
        },
        ValueModel::Function { closure, .. } => {
            assert forall|i: int| 0 <= i < closure.len() implies (ref_free(
                (#[trigger] closure[i]).1,
            ) ==> val_wf(closure[i].1, n)) by {
                lemma_ref_free_val_wf(closure[i].1, n);
            }
        },
        ValueModel::Algebraic { values, .. } => {
            assert forall|i: int| 0 <= i < values.len() implies (ref_free(
                (#[trigger] values[i]).1,
            ) ==> val_wf(values[i].1, n)) by {
                lemma_ref_free_val_wf(values[i].1, n);
            }
        },
        ValueModel::Alias { value, .. } => {
            lemma_ref_free_val_wf(*value, n);
        },
        _ => {},
    }
}

/// Value well-formedness is monotone in the store size.
pub proof fn lemma_val_wf_widen(m: ValueModel, n: nat, n2: nat)
    requires
        val_wf(m, n),
        n <= n2,
    ensures
        val_wf(m, n2),
    decreases m,
{
    match m {
        ValueModel::List(vs, _) => {
            assert forall|i: int| 0 <= i < vs.len() implies val_wf(#[trigger] vs[i], n2) by {
                lemma_val_wf_widen(vs[i], n, n2);
            }
        },
        ValueModel::Tuple(vs) => {
            assert forall|i: int| 0 <= i < vs.len() implies val_wf(#[trigger] vs[i], n2) by {
                lemma_val_wf_widen(vs[i], n, n2);
            }
        },
        ValueModel::Function { closure, .. } => {
            assert forall|i: int| 0 <= i < closure.len() implies val_wf(
                (#[trigger] closure[i]).1,
                n2,
            ) by {
                lemma_val_wf_widen(closure[i].1, n, n2);
            }
        },
        ValueModel::Algebraic { values, .. } => {
            assert forall|i: int| 0 <= i < values.len() implies val_wf(
                (#[trigger] values[i]).1,
                n2,
            ) by {
                lemma_val_wf_widen(values[i].1, n, n2);
            }
        },
        ValueModel::Alias { value, .. } => {
            lemma_val_wf_widen(*value, n, n2);
        },
        _ => {},
    }
}

/// The slot store that reference values point into.  Every holder of the
/// same slot index observes the same cell.
#[derive(Debug, PartialEq)]
pub struct Store {
    slots: Vec<Value>,
}

impl Store {
    /// Well-formedness: slot contents hold no further references, and
    /// every scope captured in a slot has unique names.
    pub open spec fn wf(&self) -> bool {
        forall|i: int|
            0 <= i < self@.len() ==> ref_free(#[trigger] self@[i]) && scopes_wf(self@[i])
    }

    /// An empty store.
    pub fn new() -> (r: Store)
        ensures
            r@ == Seq::<ValueModel>::empty(),
            r.wf(),
    {
        let r = Store { slots: Vec::new() };
        proof {
            lemma_value_models_of(r.slots@);
            assert(r@ =~= Seq::<ValueModel>::empty());
        }
        r
    }
}

impl View for Store {
    type V = Seq<ValueModel>;

    /// The model of the store: the slot contents in order.
    closed spec fn view(&self) -> Seq<ValueModel> {
        value_models_of(self.slots@)
    }
}

/// The declared type of an optional parameter type: an absent type reads
/// as the wildcard `Any`.
pub open spec fn opt_type_model(o: Option<TypeModel>) -> TypeModel {
    match o {
        Some(t) => t,
        None => TypeModel::Single("Any"@),
    }
}

/// The declared parameter types of a modelled parameter list.
pub open spec fn param_types_of(ps: Seq<(Seq<char>, Option<TypeModel>)>) -> Seq<TypeModel> {
    Seq::new(ps.len(), |i: int| opt_type_model(ps[i].1))
}

/// The structural types of a sequence of reference-free values.
pub open spec fn plain_types_of_values(vs: Seq<ValueModel>) -> Seq<TypeModel>
    decreases vs,
{
    if vs.len() == 0 {
        Seq::empty()
    } else {
        plain_types_of_values(vs.drop_last()).push(plain_type_of(vs.last()))
    }
}

/// The structural type of a reference-free value.  A reference yields the
/// unit type here; [`type_of`] resolves references through the store.
pub open spec fn plain_type_of(m: ValueModel) -> TypeModel
    decreases m,
{
    match m {
        ValueModel::Int(_) => TypeModel::Single("Int"@),
        ValueModel::UInt(_) => TypeModel::Single("UInt"@),
        ValueModel::Float(_) => TypeModel::Single("Float"@),
        ValueModel::Char(_) => TypeModel::Single("Char"@),
        ValueModel::Byte(_) => TypeModel::Single("Byte"@),
        ValueModel::List(_, t) => TypeModel::TypeList {
            name: Box::new(TypeModel::Single("List"@)),
            parameters: seq![t],
        },
        ValueModel::Tuple(vs) => TypeModel::Tuple(plain_types_of_values(vs)),
        ValueModel::Function { parameters, effects, return_type, .. } => TypeModel::Function {
            parameters: param_types_of(parameters),
            effects: effects,
            return_type: Box::new(return_type),
        },
        ValueModel::Promise(_, t) => TypeModel::TypeList {
            name: Box::new(TypeModel::Single("Promise"@)),
            parameters: seq![t],
        },
        ValueModel::Algebraic { types, name, .. } => TypeModel::TypeList {
            name: Box::new(TypeModel::Single(name)),
            parameters: types,
        },
        ValueModel::Alias { name, .. } => name,
        ValueModel::Ref(_) => TypeModel::Unit,
    }
}

/// The types of a sequence of values, resolved through the store.
pub open spec fn types_of_values(vs: Seq<ValueModel>, store: Seq<ValueModel>) -> Seq<TypeModel>
    decreases vs,
{
    if vs.len() == 0 {
        Seq::empty()
    } else {
        types_of_values(vs.drop_last(), store).push(type_of(vs.last(), store))
    }
}

/// The type of a value, derived structurally on demand.  A reference takes
/// the type of the cell it aliases; a tuple derives its components' types
/// through the store.
pub open spec fn type_of(m: ValueModel, store: Seq<ValueModel>) -> TypeModel
    decreases m,
{
    match m {
        ValueModel::Ref(i) => plain_type_of(store[i as int]),
        ValueModel::Tuple(vs) => TypeModel::Tuple(types_of_values(vs, store)),
        _ => plain_type_of(m),
    }
}

/// `plain_types_of_values` maps each element to its structural type.
pub proof fn lemma_plain_types_of_values(vs: Seq<ValueModel>)
    ensures
        plain_types_of_values(vs).len() == vs.len(),
        forall|i: int|
            0 <= i < vs.len() ==> #[trigger] plain_types_of_values(vs)[i] == plain_type_of(vs[i]),
    decreases vs,
{
    if vs.len() > 0 {
        lemma_plain_types_of_values(vs.drop_last());
        assert forall|i: int| 0 <= i < vs.len() implies #[trigger] plain_types_of_values(vs)[i]
            == plain_type_of(vs[i]) by {
            if i < vs.len() - 1 {
                assert(vs.drop_last()[i] == vs[i]);
            } else {
                assert(vs[i] == vs.last());
            }
        }
    }
}

/// `types_of_values` maps each element to its type through the store.
pub proof fn lemma_types_of_values(vs: Seq<ValueModel>, store: Seq<ValueModel>)
    ensures
        types_of_values(vs, store).len() == vs.len(),
        forall|i: int|
            0 <= i < vs.len() ==> #[trigger] types_of_values(vs, store)[i] == type_of(
                vs[i],
                store,
            ),
    decreases vs,
{
    if vs.len() > 0 {
        lemma_types_of_values(vs.drop_last(), store);
        assert forall|i: int| 0 <= i < vs.len() implies #[trigger] types_of_values(vs, store)[i]
            == type_of(vs[i], store) by {
            if i < vs.len() - 1 {
                assert(vs.drop_last()[i] == vs[i]);
            } else {
                assert(vs[i] == vs.last());
            }
        }
    }
}

/// Deep copies of a sequence of values, element by element.
fn dup_values(vs: &Vec<Value>) -> (r: Vec<Value>)
    ensures
        value_models_of(r@) == value_models_of(vs@),
    decreases *vs,
{
    let mut out: Vec<Value> = Vec::new();
    let n = vs.len();
    let mut i: usize = 0;
    while i < n
        invariant
            n == vs@.len(),
            out@.len() == i <= n,
            forall|j: int| 0 <= j < i ==> (#[trigger] out@[j]).model() == vs@[j].model(),
        decreases n - i,
    {
        let v = vs[i].dup();
        out.push(v);
        i += 1;
    }
    proof {
        lemma_value_models_of(out@);
        lemma_value_models_of(vs@);
        assert forall|j: int| 0 <= j < vs@.len() implies value_models_of(out@)[j]
            == value_models_of(vs@)[j] by {
            assert(value_models_of(out@)[j] == out@[j].model());
            assert(value_models_of(vs@)[j] == vs@[j].model());
        }
        assert(value_models_of(out@) =~= value_models_of(vs@));
    }
    out
}

/// Deep copies of a sequence of (type, value) pairs, element by element.
pub(crate) fn dup_pairs(vs: &Vec<(Type, Value)>) -> (r: Vec<(Type, Value)>)
    ensures
        pair_models_of(r@) == pair_models_of(vs@),
    decreases *vs,
{
    let mut out: Vec<(Type, Value)> = Vec::new();
    let n = vs.len();
    let mut i: usize = 0;
    while i < n
        invariant
            n == vs@.len(),
            out@.len() == i <= n,
            forall|j: int|
                0 <= j < i ==> (#[trigger] out@[j]).0.model() == vs@[j].0.model() && out@[j].1.model()
                    == vs@[j].1.model(),
        decreases n - i,
    {
        let t = vs[i].0.dup();
        let v = vs[i].1.dup();
        out.push((t, v));
        i += 1;
    }
    proof {
        lemma_pair_models_of(out@);
        lemma_pair_models_of(vs@);
        assert forall|j: int| 0 <= j < vs@.len() implies pair_models_of(out@)[j] == pair_models_of(
            vs@,
        )[j] by {
            assert(pair_models_of(out@)[j] == (out@[j].0.model(), out@[j].1.model()));
            assert(pair_models_of(vs@)[j] == (vs@[j].0.model(), vs@[j].1.model()));
        }
        assert(pair_models_of(out@) =~= pair_models_of(vs@));
    }
    out
}

/// Deep copies of a parameter list, element by element.
fn dup_params(ps: &Vec<(String, Option<Type>)>) -> (r: Vec<(String, Option<Type>)>)
    ensures
        param_models_of(r@) == param_models_of(ps@),
{
    let mut out: Vec<(String, Option<Type>)> = Vec::new();
    let n = ps.len();
    let mut i: usize = 0;
    while i < n
        invariant
            n == ps@.len(),
            out@.len() == i <= n,
            forall|j: int|
                0 <= j < i ==> (#[trigger] out@[j]).0@ == ps@[j].0@ && opt_model_of(out@[j].1)
                    == opt_model_of(ps@[j].1),
        decreases n - i,
    {
        let name = ps[i].0.clone();
        let t = match &ps[i].1 {
            Some(t) => Some(t.dup()),
            None => None,
        };
        out.push((name, t));
        i += 1;
    }
    proof {
        assert(param_models_of(out@) =~= param_models_of(ps@));
    }
    out
}

impl Value {
    /// A deep structural copy with the same model.  For internal moves of
    /// table entries only: the language-level copying rules live in
    /// [`Value::get_immutable`].
    pub(crate) fn dup(&self) -> (r: Value)
        ensures
            r@ == self@,
        decreases *self,
    {
        match self {
            Value::Int(i) => Value::Int(*i),
            Value::UInt(i) => Value::UInt(*i),
            Value::Float(bits) => Value::Float(*bits),
            Value::Char(c) => Value::Char(*c),
            Value::Byte(b) => Value::Byte(*b),
            Value::List(vs, t) => Value::List(dup_values(vs), t.dup()),
            Value::Tuple(vs) => Value::Tuple(dup_values(vs)),
            Value::Function { threaded, parameters, effects, return_type, closure, body } => {
                Value::Function {
                    threaded: *threaded,
                    parameters: dup_params(parameters),
                    effects: crate::types::dup_types(effects),
                    return_type: Box::new(return_type.dup()),
                    closure: closure.dup(),
                    body: body.clone(),
                }
            },
            Value::Promise(handle, t) => Value::Promise(*handle, t.dup()),
            Value::Algebraic { agb_type, types, name, values } => Value::Algebraic {
                agb_type: *agb_type,
                types: crate::types::dup_types(types),
                name: name.clone(),
                values: dup_pairs(values),
            },
            Value::Alias { parent, name, value } => Value::Alias {
                parent: parent.dup(),
                name: name.dup(),
                value: Box::new(value.dup()),
            },
            Value::Ref(r) => Value::Ref(ValRef { index: r.index }),
        }
    }
}

/// On a reference-free value the two type derivations agree.
pub proof fn lemma_type_of_plain(m: ValueModel, store: Seq<ValueModel>)
    requires
        ref_free(m),
    ensures
        type_of(m, store) == plain_type_of(m),
    decreases m,
{
    match m {
        ValueModel::Tuple(vs) => {
            lemma_types_of_values(vs, store);
            lemma_plain_types_of_values(vs);
            assert forall|i: int| 0 <= i < vs.len() implies types_of_values(vs, store)[i]
                == plain_types_of_values(vs)[i] by {
                lemma_type_of_plain(vs[i], store);
            }
            assert(types_of_values(vs, store) =~= plain_types_of_values(vs));
        },
        _ => {},
    }
}

/// The snapshot a read takes of a value: a reference reads the cell it
/// aliases; any other value reads as itself.
pub open spec fn snapshot_of(m: ValueModel, store: Seq<ValueModel>) -> ValueModel {
    match m {
        ValueModel::Ref(i) => store[i as int],
        _ => m,
    }
}

/// A vector of fresh types with the given single model.
fn singleton_type(t: &Type) -> (r: Vec<Type>)
    ensures
        models_of(r@) == seq![t@],
{
    let mut r: Vec<Type> = Vec::new();
    r.push(t.dup());
    proof {
        assert(r@.last()@ == t@);
        assert(r@.drop_last() =~= Seq::<Type>::empty());
        assert(models_of(r@) == models_of(r@.drop_last()).push(r@.last().model()));
        assert(models_of(r@) =~= seq![t@]);
    }
    r
}

/// The declared types of a parameter list; an absent type reads as `Any`.
fn declared_param_types(ps: &Vec<(String, Option<Type>)>) -> (r: Vec<Type>)
    ensures
        models_of(r@) == param_types_of(param_models_of(ps@)),
{
    let mut out: Vec<Type> = Vec::new();
    let n = ps.len();
    let mut i: usize = 0;
    while i < n
        invariant
            n == ps@.len(),
            out@.len() == i <= n,
            forall|j: int|
                0 <= j < i ==> (#[trigger] out@[j]).model() == opt_type_model(
                    opt_model_of(ps@[j].1),
                ),
        decreases n - i,
    {
        let t = crate::types::TypeUtils::get_type(&ps[i].1);
        out.push(t);
        i += 1;
    }
    proof {
        lemma_models_of(out@);
        assert forall|j: int| 0 <= j < n implies models_of(out@)[j] == param_types_of(
            param_models_of(ps@),
        )[j] by {
            assert(models_of(out@)[j] == out@[j].model());
        }
        assert(models_of(out@) =~= param_types_of(param_models_of(ps@)));
    }
    out
}

/// The structural types of a vector of reference-free values.
fn plain_types_vec(vs: &Vec<Value>) -> (r: Vec<Type>)
    requires
        forall|j: int| 0 <= j < vs@.len() ==> ref_free((#[trigger] vs@[j]).model()),
    ensures
        models_of(r@) == plain_types_of_values(value_models_of(vs@)),
    decreases *vs,
{
    let mut out: Vec<Type> = Vec::new();
    let n = vs.len();
    let mut i: usize = 0;
    while i < n
        invariant
            n == vs@.len(),
            out@.len() == i <= n,
            forall|j: int| 0 <= j < vs@.len() ==> ref_free((#[trigger] vs@[j]).model()),
            forall|j: int|
                0 <= j < i ==> (#[trigger] out@[j]).model() == plain_type_of(vs@[j].model()),
        decreases n - i,
    {
        let t = vs[i].get_type_plain();
        out.push(t);
        i += 1;
    }
    proof {
        lemma_models_of(out@);
        lemma_value_models_of(vs@);
        lemma_plain_types_of_values(value_models_of(vs@));
        assert forall|j: int| 0 <= j < n implies models_of(out@)[j] == plain_types_of_values(
            value_models_of(vs@),
        )[j] by {
            assert(models_of(out@)[j] == out@[j].model());
            assert(value_models_of(vs@)[j] == vs@[j].model());
        }
        assert(models_of(out@) =~= plain_types_of_values(value_models_of(vs@)));
    }
    out
}

/// The types of a vector of values, resolved through the store.
fn types_vec(vs: &Vec<Value>, store: &Store) -> (r: Vec<Type>)
    requires
        store.wf(),
        forall|j: int| 0 <= j < vs@.len() ==> val_wf((#[trigger] vs@[j]).model(), store@.len()),
    ensures
        models_of(r@) == types_of_values(value_models_of(vs@), store@),
    decreases *vs,
{
    let mut out: Vec<Type> = Vec::new();
    let n = vs.len();
    let mut i: usize = 0;
    while i < n
        invariant
            store.wf(),
            n == vs@.len(),
            out@.len() == i <= n,
            forall|j: int| 0 <= j < vs@.len() ==> val_wf((#[trigger] vs@[j]).model(), store@.len()),
            forall|j: int|
                0 <= j < i ==> (#[trigger] out@[j]).model() == type_of(vs@[j].model(), store@),
        decreases n - i,
    {
        let t = vs[i].get_type(store);
        out.push(t);
        i += 1;
    }
    proof {
        lemma_models_of(out@);
        lemma_value_models_of(vs@);
        lemma_types_of_values(value_models_of(vs@), store@);
        assert forall|j: int| 0 <= j < n implies models_of(out@)[j] == types_of_values(
            value_models_of(vs@),
            store@,
        )[j] by {
            assert(models_of(out@)[j] == out@[j].model());
            assert(value_models_of(vs@)[j] == vs@[j].model());
        }
        assert(models_of(out@) =~= types_of_values(value_models_of(vs@), store@));
    }
    out
}

impl Value {
    /// The structural type of a reference-free value.
    pub fn get_type_plain(&self) -> (t: Type)
        requires
            ref_free(self@),
        ensures
            t@ == plain_type_of(self@),
        decreases *self,
    {
        match self {
            Value::Int(_) => Type::Single("Int".to_owned()),
            Value::UInt(_) => Type::Single("UInt".to_owned()),
            Value::Float(_) => Type::Single("Float".to_owned()),
            Value::Char(_) => Type::Single("Char".to_owned()),
            Value::Byte(_) => Type::Single("Byte".to_owned()),
            Value::List(_, t) => {
                let nm = Type::Single("List".to_owned());
                proof {
                    assert(nm@ == TypeModel::Single("List"@));
                }
                Type::TypeList { name: Box::new(nm), parameters: singleton_type(t) }
            },
            Value::Tuple(vs) => {
                proof {
                    lemma_value_models_of(vs@);
                    assert forall|j: int| 0 <= j < vs@.len() implies ref_free(
                        (#[trigger] vs@[j]).model(),
                    ) by {
                        assert(value_models_of(vs@)[j] == vs@[j].model());
                    }
                }
                Type::Tuple(plain_types_vec(vs))
            },
            Value::Function { parameters, effects, return_type, .. } => Type::Function {
                parameters: declared_param_types(parameters),
                effects: crate::types::dup_types(effects),
                return_type: Box::new(return_type.dup()),
            },
            Value::Promise(_, t) => {
                let nm = Type::Single("Promise".to_owned());
                proof {
                    assert(nm@ == TypeModel::Single("Promise"@));
                }
                Type::TypeList { name: Box::new(nm), parameters: singleton_type(t) }
            },
            Value::Algebraic { types, name, .. } => {
                let nm = Type::Single(name.clone());
                proof {
                    assert(nm@ == TypeModel::Single(name@));
                }
                Type::TypeList { name: Box::new(nm), parameters: crate::types::dup_types(types) }
            },
            Value::Alias { name, .. } => name.dup(),
            Value::Ref(_) => {
                proof {
                    assert(false);
                }
                Type::Unit
            },
        }
    }

    /// The type of this value, derived structurally on demand.  A reference
    /// takes the type of the cell it aliases.
    pub fn get_type(&self, store: &Store) -> (t: Type)
        requires
            store.wf(),
            val_wf(self@, store@.len()),
        ensures
            t@ == type_of(self@, store@),
        decreases *self,
    {
        match self {
            Value::Int(_) => Type::Single("Int".to_owned()),
            Value::UInt(_) => Type::Single("UInt".to_owned()),
            Value::Float(_) => Type::Single("Float".to_owned()),
            Value::Char(_) => Type::Single("Char".to_owned()),
            Value::Byte(_) => Type::Single("Byte".to_owned()),
            Value::List(_, t) => {
                let nm = Type::Single("List".to_owned());
                proof {
                    assert(nm@ == TypeModel::Single("List"@));
                }
                Type::TypeList { name: Box::new(nm), parameters: singleton_type(t) }
            },
            Value::Tuple(vs) => {
                proof {
                    lemma_value_models_of(vs@);
                    assert forall|j: int| 0 <= j < vs@.len() implies val_wf(
                        (#[trigger] vs@[j]).model(),
                        store@.len(),
                    ) by {
                        assert(value_models_of(vs@)[j] == vs@[j].model());
                    }
                }
                Type::Tuple(types_vec(vs, store))
            },
            Value::Function { parameters, effects, return_type, .. } => Type::Function {
                parameters: declared_param_types(parameters),
                effects: crate::types::dup_types(effects),
                return_type: Box::new(return_type.dup()),
            },
            Value::Promise(_, t) => {
                let nm = Type::Single("Promise".to_owned());
                proof {
                    assert(nm@ == TypeModel::Single("Promise"@));
                }
                Type::TypeList { name: Box::new(nm), parameters: singleton_type(t) }
            },
            Value::Algebraic { types, name, .. } => {
                let nm = Type::Single(name.clone());
                proof {
                    assert(nm@ == TypeModel::Single(name@));
                }
                Type::TypeList { name: Box::new(nm), parameters: crate::types::dup_types(types) }
            },
            Value::Alias { name, .. } => name.dup(),
            Value::Ref(r) => {
                proof {
                    lemma_value_models_of(store.slots@);
                    assert(store@[r.index as int] == store.slots@[r.index as int].model());
                }
                store.slots[r.index].get_type_plain()
            },
        }
    }

    /// Whether this value is a mutable cell: exactly the reference values.
    pub fn is_mutable(&self) -> (r: bool)
        ensures
            r == (self@ is Ref),
    {
        match self {
            Value::Ref(_) => true,
            _ => false,
        }
    }

    /// Whether this value is a reference.
    pub fn is_ref(&self) -> (r: bool)
        ensures
            r == (self@ is Ref),
    {
        match self {
            Value::Ref(_) => true,
            _ => false,
        }
    }

    /// Wraps this value into a fresh cell of the store and returns the
    /// reference that aliases it.
    pub fn new_ref(self, store: &mut Store) -> (r: Value)
        requires
            old(store).wf(),
            ref_free(self@),
            scopes_wf(self@),
        ensures
            final(store)@ == old(store)@.push(self@),
            final(store).wf(),
            old(store)@.len() <= usize::MAX,
            r@ == ValueModel::Ref(old(store)@.len() as usize),
    {
        let r = ValRef::new(self, store);
        Value::Ref(r)
    }

    /// Writes `value` through this reference into its cell.  On a value
    /// that is not a reference, nothing changes.
    pub fn set_value(&self, store: &mut Store, value: Value)
        requires
            old(store).wf(),
            ref_free(value@),
            scopes_wf(value@),
            val_wf(self@, old(store)@.len()),
        ensures
            final(store).wf(),
            final(store)@ == match self@ {
                ValueModel::Ref(i) => old(store)@.update(i as int, value@),
                _ => old(store)@,
            },
    {
        match self {
            Value::Ref(r) => {
                let ghost m = value@;
                proof {
                    lemma_value_models_of(store.slots@);
                }
                store.slots.set(r.index, value);
                proof {
                    lemma_value_models_of(store.slots@);
                    assert forall|j: int| 0 <= j < store.slots@.len() implies store@[j] == old(
                        store,
                    )@.update(r.index as int, m)[j] by {
                        assert(store@[j] == store.slots@[j].model());
                        if j != r.index {
                            assert(store.slots@[j] == old(store).slots@[j]);
                            assert(old(store)@[j] == old(store).slots@[j].model());
                        }
                    }
                    assert(store@ =~= old(store)@.update(r.index as int, m));
                }
            },
            _ => {},
        }
    }

    /// A detached snapshot of this value: a reference reads its cell, any
    /// other value is copied.  Only duplicable snapshots may be taken: a
    /// promise or a reference must not be copied.
    pub fn get_immutable(&self, store: &Store) -> (r: Value)
        requires
            store.wf(),
            val_wf(self@, store@.len()),
            duplicable(snapshot_of(self@, store@)),
        ensures
            r@ == snapshot_of(self@, store@),
    {
        match self {
            Value::Ref(vr) => {
                proof {
                    lemma_value_models_of(store.slots@);
                    assert(store@[vr.index as int] == store.slots@[vr.index as int].model());
                }
                store.slots[vr.index].dup()
            },
            _ => self.dup(),
        }
    }

    /// The aliasing handle itself.  Only valid on a value that already is a
    /// reference: reference creation is never implicit.
    pub fn get_mutable(&self) -> (r: Value)
        requires
            self@ is Ref,
        ensures
            r@ == self@,
    {
        match self {
            Value::Ref(vr) => Value::Ref(ValRef { index: vr.index }),
            _ => {
                proof {
                    assert(false);
                }
                Value::Int(0)
            },
        }
    }

    /// A new alias of the cell this reference points at.  Only valid on a
    /// value that already is a reference.
    pub fn create_reference(&self) -> (r: Value)
        requires
            self@ is Ref,
        ensures
            r@ == self@,
    {
        self.get_mutable()
    }

    /// A promise value wrapping an opaque thread handle and the declared
    /// return type of the spawned call.
    pub fn create_promise(handle: u64, the_type: Type) -> (r: Value)
        ensures
            r@ == ValueModel::Promise(handle, the_type@),
    {
        Value::Promise(handle, the_type)
    }
}

} // verus!
