//! The interpreter engine: symbol tables, the three global tiers, name
//! resolution, and the function-invocation protocol.
//!
//! The shared state — the four callable tables, the shared-immutable and
//! shared-mutable global tiers, and the reference-cell store — lives in one
//! [`Environment`], constructed once and handed explicitly to every
//! interpreter instance.  Each [`Interpreter`] owns only its thread-local
//! tier; a per-thread clone starts with that tier empty.  The host embeds
//! the environment behind whatever sharing and locking it needs and runs
//! the invocations this core prepares.

use vstd::prelude::*;

verus! {

use vstd::hash_map::StringHashMap;

use crate::errors::{Error, ErrorModel};
use crate::scope::{assoc_find, assoc_unique, Scope};
use crate::types::{models_of, type_equal, Type, TypeModel, TypeUtils};
use crate::values::{
    duplicable,
    lemma_pair_models_of,
    pair_models_of,
    param_models_of,
    ref_free,
    scopes_wf,
    snapshot_of,
    type_of,
    val_wf,
    value_models_of,
    Store,
    Value,
    ValueModel,
};
use crate::variable::{Variable, VariableModel};

/// The first body registered for a dispatch type that unifies with `k`.
pub open spec fn type_find(s: Seq<(TypeModel, ValueModel)>, k: TypeModel) -> Option<ValueModel>
    decreases s,
{
    if s.len() == 0 {
        None
    } else if type_equal(s[0].0, k) {
        Some(s[0].1)
    } else {
        type_find(s.drop_first(), k)
    }
}

/// Whether some registered class unifies with `k`.
pub open spec fn has_class(classes: Seq<(TypeModel, Seq<TypeModel>)>, k: TypeModel) -> bool {
    exists|i: int| 0 <= i < classes.len() && type_equal((#[trigger] classes[i]).0, k)
}

/// Typeclass method bodies keyed by the dispatch type they implement.
/// Lookups take the first entry whose key unifies with the probe, so the
/// latest registration wins.
#[derive(Debug)]
pub struct InstanceTable {
    entries: Vec<(Type, Value)>,
}

impl View for InstanceTable {
    type V = Seq<(TypeModel, ValueModel)>;

    /// The model of this table: its entries as (type, value) models.
    closed spec fn view(&self) -> Seq<(TypeModel, ValueModel)> {
        pair_models_of(self.entries@)
    }
}

impl InstanceTable {
    /// An empty table.
    pub fn new() -> (r: InstanceTable)
        ensures
            r@ == Seq::<(TypeModel, ValueModel)>::empty(),
    {
        let r = InstanceTable { entries: Vec::new() };
        proof {
            lemma_pair_models_of(r.entries@);
            assert(r@ =~= Seq::<(TypeModel, ValueModel)>::empty());
        }
        r
    }

    /// The body registered for the first dispatch type unifying with
    /// `key`, if any.
    pub fn get(&self, key: &Type) -> (r: Option<&Value>)
        ensures
            match r {
                Some(v) => type_find(self@, key@) == Some(v.model()),
                None => type_find(self@, key@) is None,
            },
    {
        let n = self.entries.len();
        proof {
            lemma_pair_models_of(self.entries@);
            assert(self@.skip(0) =~= self@);
        }
        let mut i: usize = 0;
        while i < n
            invariant
                n == self.entries@.len(),
                self@.len() == n,
                i <= n,
                type_find(self@, key@) == type_find(self@.skip(i as int), key@),
            decreases n - i,
        {
            proof {
                lemma_pair_models_of(self.entries@);
                let entry = self.entries@[i as int];
                assert(self@[i as int] == (entry.0.model(), entry.1.model()));
                assert(self@.skip(i as int)[0] == self@[i as int]);
            }
            if self.entries[i].0.equal(key) {
                return Some(&self.entries[i].1);
            }
            proof {
                assert(self@.skip(i as int).drop_first() =~= self@.skip(i as int + 1));
            }
            i += 1;
        }
        proof {
            assert(self@.skip(n as int) =~= Seq::<(TypeModel, ValueModel)>::empty());
        }
        None
    }

    /// Registers `value` under the dispatch type `key`.  The new entry
    /// shadows any earlier entry its key unifies with.
    pub fn insert(&mut self, key: Type, value: Value)
        ensures
            final(self)@ == seq![(key@, value@)] + old(self)@,
    {
        let ghost km = key@;
        let ghost vm = value@;
        proof {
            lemma_pair_models_of(self.entries@);
        }
        self.entries.insert(0, (key, value));
        proof {
            lemma_pair_models_of(self.entries@);
            assert forall|j: int| 0 <= j < self.entries@.len() implies self@[j] == (seq![(km, vm)]
                + old(self)@)[j] by {
                let entry = self.entries@[j];
                assert(self@[j] == (entry.0.model(), entry.1.model()));
                if j > 0 {
                    assert(self.entries@[j] == old(self).entries@[j - 1]);
                    assert(old(self)@[j - 1] == (
                        old(self).entries@[j - 1].0.model(),
                        old(self).entries@[j - 1].1.model(),
                    ));
                }
            }
            assert(self@ =~= seq![(km, vm)] + old(self)@);
        }
    }

    /// A structural copy with the same model.
    pub(crate) fn dup(&self) -> (r: InstanceTable)
        ensures
            r@ == self@,
    {
        InstanceTable { entries: crate::values::dup_pairs(&self.entries) }
    }
}

/// The models of a registry entry sequence: each class key with its
/// recorded signature set.
pub open spec fn class_entries_of(s: Seq<(Type, Vec<Type>)>) -> Seq<(TypeModel, Seq<TypeModel>)>
    decreases s,
{
    if s.len() == 0 {
        Seq::empty()
    } else {
        class_entries_of(s.drop_last()).push(
            (s.last().0.model(), crate::types::models_of(s.last().1@)),
        )
    }
}

/// `class_entries_of` maps each entry to its model.
proof fn lemma_class_entries_of(s: Seq<(Type, Vec<Type>)>)
    ensures
        class_entries_of(s).len() == s.len(),
        forall|i: int|
            0 <= i < s.len() ==> #[trigger] class_entries_of(s)[i] == (
            s[i].0.model(),
            crate::types::models_of(s[i].1@),
            ),
    decreases s,
{
    if s.len() > 0 {
        lemma_class_entries_of(s.drop_last());
        assert forall|i: int| 0 <= i < s.len() implies #[trigger] class_entries_of(s)[i] == (
        s[i].0.model(),
        crate::types::models_of(s[i].1@),
        ) by {
            if i < s.len() - 1 {
                assert(s.drop_last()[i] == s[i]);
            } else {
                assert(s[i] == s.last());
            }
        }
    }
}

/// The validity registry: each declared typeclass with its signature set.
/// Its model is the sequence of declared (class, signature set) pairs.
#[derive(Debug)]
pub struct ClassRegistry {
    entries: Vec<(Type, Vec<Type>)>,
}

impl View for ClassRegistry {
    type V = Seq<(TypeModel, Seq<TypeModel>)>;

    /// The model of this registry: the declared classes with their
    /// signature sets, in declaration order.
    closed spec fn view(&self) -> Seq<(TypeModel, Seq<TypeModel>)> {
        class_entries_of(self.entries@)
    }
}

impl ClassRegistry {
    /// An empty registry.
    pub fn new() -> (r: ClassRegistry)
        ensures
            r@ == Seq::<(TypeModel, Seq<TypeModel>)>::empty(),
    {
        let r = ClassRegistry { entries: Vec::new() };
        proof {
            lemma_class_entries_of(r.entries@);
            assert(r@ =~= Seq::<(TypeModel, Seq<TypeModel>)>::empty());
        }
        r
    }

    /// Whether some declared class unifies with `key`.
    pub fn contains(&self, key: &Type) -> (r: bool)
        ensures
            r == has_class(self@, key@),
    {
        let n = self.entries.len();
        proof {
            lemma_class_entries_of(self.entries@);
        }
        let mut i: usize = 0;
        while i < n
            invariant
                n == self.entries@.len(),
                self@.len() == n,
                i <= n,
                forall|j: int| 0 <= j < i ==> !type_equal((#[trigger] self@[j]).0, key@),
            decreases n - i,
        {
            proof {
                lemma_class_entries_of(self.entries@);
                assert(self@[i as int].0 == self.entries@[i as int].0.model());
            }
            if self.entries[i].0.equal(key) {
                return true;
            }
            i += 1;
        }
        false
    }

    /// Declares `key` with its full signature set.
    pub fn insert(&mut self, key: Type, signatures: Vec<Type>)
        ensures
            final(self)@ == old(self)@.push((key@, crate::types::models_of(signatures@))),
    {
        let ghost km = key@;
        let ghost sm = crate::types::models_of(signatures@);
        proof {
            lemma_class_entries_of(self.entries@);
        }
        self.entries.push((key, signatures));
        proof {
            lemma_class_entries_of(old(self).entries@);
            lemma_class_entries_of(self.entries@);
            assert forall|j: int| 0 <= j < self.entries@.len() implies self@[j] == old(self)@.push(
                (km, sm),
            )[j] by {
                let entry = self.entries@[j];
                assert(self@[j] == (entry.0.model(), crate::types::models_of(entry.1@)));
                if j < old(self).entries@.len() {
                    assert(self.entries@[j] == old(self).entries@[j]);
                    let e_old = old(self).entries@[j];
                    assert(old(self)@[j] == (e_old.0.model(), crate::types::models_of(e_old.1@)));
                }
            }
            assert(self@ =~= old(self)@.push((km, sm)));
        }
    }
}

/// Whether a value is fully well formed against a store of `n` slots: its
/// references point into the store and its captured scopes have unique
/// names.
pub open spec fn value_ok(m: ValueModel, n: nat) -> bool {
    val_wf(m, n) && scopes_wf(m)
}

/// Whether every value of a name-keyed map is well formed.
pub open spec fn value_map_ok(m: Map<Seq<char>, ValueModel>, n: nat) -> bool {
    forall|k: Seq<char>| m.contains_key(k) ==> value_ok(#[trigger] m[k], n)
}

/// Whether a variable's held value, if any, is well formed.
pub open spec fn var_ok(v: VariableModel, n: nat) -> bool {
    v.val matches Some(m) ==> value_ok(m, n)
}

/// Whether every variable of a name-keyed tier is well formed.
pub open spec fn var_map_ok(m: Map<Seq<char>, VariableModel>, n: nat) -> bool {
    forall|k: Seq<char>| m.contains_key(k) ==> var_ok(#[trigger] m[k], n)
}

/// Whether every body of every instance table is well formed.
pub open spec fn instance_map_ok(
    m: Map<Seq<char>, Seq<(TypeModel, ValueModel)>>,
    n: nat,
) -> bool {
    forall|k: Seq<char>, i: int|
        m.contains_key(k) && 0 <= i < m[k].len() ==> value_ok((#[trigger] m[k][i]).1, n)
}

/// Whether every entry of a local scope is well formed and names are
/// unique.
pub open spec fn locals_ok(s: Seq<(Seq<char>, ValueModel)>, n: nat) -> bool {
    assoc_unique(s) && forall|i: int| 0 <= i < s.len() ==> value_ok((#[trigger] s[i]).1, n)
}

/// Map well-formedness is monotone in the store size.
proof fn lemma_value_map_ok_widen(m: Map<Seq<char>, ValueModel>, n: nat, n2: nat)
    requires
        value_map_ok(m, n),
        n <= n2,
    ensures
        value_map_ok(m, n2),
{
    assert forall|k: Seq<char>| m.contains_key(k) implies value_ok(#[trigger] m[k], n2) by {
        crate::values::lemma_val_wf_widen(m[k], n, n2);
    }
}

/// Tier well-formedness is monotone in the store size.
proof fn lemma_var_map_ok_widen(m: Map<Seq<char>, VariableModel>, n: nat, n2: nat)
    requires
        var_map_ok(m, n),
        n <= n2,
    ensures
        var_map_ok(m, n2),
{
    assert forall|k: Seq<char>| m.contains_key(k) implies var_ok(#[trigger] m[k], n2) by {
        match m[k].val {
            Some(v) => crate::values::lemma_val_wf_widen(v, n, n2),
            None => (),
        }
    }
}

/// Instance-table well-formedness is monotone in the store size.
proof fn lemma_instance_map_ok_widen(
    m: Map<Seq<char>, Seq<(TypeModel, ValueModel)>>,
    n: nat,
    n2: nat,
)
    requires
        instance_map_ok(m, n),
        n <= n2,
    ensures
        instance_map_ok(m, n2),
{
    assert forall|k: Seq<char>, i: int| m.contains_key(k) && 0 <= i < m[k].len() implies value_ok(
        (#[trigger] m[k][i]).1,
        n2,
    ) by {
        crate::values::lemma_val_wf_widen(m[k][i].1, n, n2);
    }
}

/// The shared state of one interpreter family: the named-function table,
/// the per-dispatch-type instance tables, the typeclass-default table, the
/// validity registry, the shared-immutable and shared-mutable global
/// tiers, the reference-cell store, and the promise-handle counter.
pub struct Environment {
    function_symbol_table: StringHashMap<Value>,
    type_class_symbol_table: StringHashMap<InstanceTable>,
    default_symbol_table: StringHashMap<Value>,
    valid_typeclasses: ClassRegistry,
    shared_global_variables: StringHashMap<Variable>,
    mutable_global_variables: StringHashMap<Variable>,
    store: Store,
    next_promise: u64,
}

impl Environment {
    /// The named-function table, as a map from names to value models.
    pub closed spec fn functions(&self) -> Map<Seq<char>, ValueModel> {
        self.function_symbol_table@.map_values(|v: Value| v@)
    }

    /// The instance tables, as a map from method names to entry models.
    pub closed spec fn instances(&self) -> Map<Seq<char>, Seq<(TypeModel, ValueModel)>> {
        self.type_class_symbol_table@.map_values(|t: InstanceTable| t@)
    }

    /// The typeclass-default table, as a map from names to value models.
    pub closed spec fn defaults(&self) -> Map<Seq<char>, ValueModel> {
        self.default_symbol_table@.map_values(|v: Value| v@)
    }

    /// The declared typeclasses with their signature sets, in
    /// declaration order.
    pub closed spec fn classes(&self) -> Seq<(TypeModel, Seq<TypeModel>)> {
        self.valid_typeclasses@
    }

    /// The shared-immutable global tier.
    pub closed spec fn shared_globals(&self) -> Map<Seq<char>, VariableModel> {
        self.shared_global_variables@.map_values(|v: Variable| v.model())
    }

    /// The shared-mutable global tier.
    pub closed spec fn mutable_globals(&self) -> Map<Seq<char>, VariableModel> {
        self.mutable_global_variables@.map_values(|v: Variable| v.model())
    }

    /// The reference-cell store contents.
    pub closed spec fn cells(&self) -> Seq<ValueModel> {
        self.store@
    }

    /// The next unused promise handle.
    pub closed spec fn next_promise_id(&self) -> u64 {
        self.next_promise
    }

    /// Well-formedness: every reference held anywhere points into the
    /// store, stored cell contents are reference-free, and every captured
    /// scope has unique names.
    pub closed spec fn wf(&self) -> bool {
        &&& self.store.wf()
        &&& value_map_ok(self.functions(), self.cells().len())
        &&& value_map_ok(self.defaults(), self.cells().len())
        &&& instance_map_ok(self.instances(), self.cells().len())
        &&& var_map_ok(self.shared_globals(), self.cells().len())
        &&& var_map_ok(self.mutable_globals(), self.cells().len())
    }

    /// A fresh environment with empty tables and tiers.
    pub fn new() -> (r: Environment)
        ensures
            r.wf(),
            r.functions() == Map::<Seq<char>, ValueModel>::empty(),
            r.instances() == Map::<Seq<char>, Seq<(TypeModel, ValueModel)>>::empty(),
            r.defaults() == Map::<Seq<char>, ValueModel>::empty(),
            r.classes() == Seq::<(TypeModel, Seq<TypeModel>)>::empty(),
            r.shared_globals() == Map::<Seq<char>, VariableModel>::empty(),
            r.mutable_globals() == Map::<Seq<char>, VariableModel>::empty(),
            r.cells() == Seq::<ValueModel>::empty(),
    {
        let r = Environment {
            function_symbol_table: StringHashMap::new(),
            type_class_symbol_table: StringHashMap::new(),
            default_symbol_table: StringHashMap::new(),
            valid_typeclasses: ClassRegistry::new(),
            shared_global_variables: StringHashMap::new(),
            mutable_global_variables: StringHashMap::new(),
            store: Store::new(),
            next_promise: 0,
        };
        proof {
            assert(r.functions() =~= Map::<Seq<char>, ValueModel>::empty());
            assert(r.instances() =~= Map::<Seq<char>, Seq<(TypeModel, ValueModel)>>::empty());
            assert(r.defaults() =~= Map::<Seq<char>, ValueModel>::empty());
            assert(r.shared_globals() =~= Map::<Seq<char>, VariableModel>::empty());
            assert(r.mutable_globals() =~= Map::<Seq<char>, VariableModel>::empty());
        }
        r
    }

    /// Registers a named function (or any callable value) under `name`.
    pub fn add_function(&mut self, name: &str, value: Value)
        requires
            old(self).wf(),
            value_ok(value@, old(self).cells().len()),
        ensures
            final(self).wf(),
            final(self).functions() == old(self).functions().insert(name@, value@),
            final(self).instances() == old(self).instances(),
            final(self).defaults() == old(self).defaults(),
            final(self).classes() == old(self).classes(),
            final(self).shared_globals() == old(self).shared_globals(),
            final(self).mutable_globals() == old(self).mutable_globals(),
            final(self).cells() == old(self).cells(),
            final(self).next_promise_id() == old(self).next_promise_id(),
    {
        let ghost vm = value@;
        self.function_symbol_table.insert(name.to_owned(), value);
        proof {
            assert(self.functions() =~= old(self).functions().insert(name@, vm));
        }
    }

    /// Declares a shared-immutable global.  Every interpreter sharing this
    /// environment can read it; no thread may ever assign to it.
    pub fn declare_shared_global(&mut self, name: &str, value: Value)
        requires
            old(self).wf(),
            ref_free(value@),
            scopes_wf(value@),
        ensures
            final(self).wf(),
            final(self).shared_globals() == old(self).shared_globals().insert(
                name@,
                VariableModel {
                    decl: Some(crate::values::plain_type_of(value@)),
                    val: Some(value@),
                },
            ),
            final(self).functions() == old(self).functions(),
            final(self).instances() == old(self).instances(),
            final(self).defaults() == old(self).defaults(),
            final(self).classes() == old(self).classes(),
            final(self).mutable_globals() == old(self).mutable_globals(),
            final(self).cells() == old(self).cells(),
            final(self).next_promise_id() == old(self).next_promise_id(),
    {
        let ghost vm = value@;
        proof {
            crate::values::lemma_ref_free_val_wf(value@, self.cells().len());
            crate::values::lemma_type_of_plain(value@, self.cells());
        }
        let variable = Variable::new(value, &self.store);
        self.shared_global_variables.insert(name.to_owned(), variable);
        proof {
            assert(self.shared_globals() =~= old(self).shared_globals().insert(
                name@,
                VariableModel { decl: Some(crate::values::plain_type_of(vm)), val: Some(vm) },
            ));
        }
    }

    /// Declares a shared-mutable global: its value lives in a fresh cell
    /// of the store, and any thread may assign to it.
    pub fn declare_mutable_global(&mut self, name: &str, value: Value)
        requires
            old(self).wf(),
            ref_free(value@),
            scopes_wf(value@),
        ensures
            final(self).wf(),
            final(self).cells() == old(self).cells().push(value@),
            final(self).mutable_globals() == old(self).mutable_globals().insert(
                name@,
                VariableModel {
                    decl: Some(crate::values::plain_type_of(value@)),
                    val: Some(ValueModel::Ref(old(self).cells().len() as usize)),
                },
            ),
            final(self).functions() == old(self).functions(),
            final(self).instances() == old(self).instances(),
            final(self).defaults() == old(self).defaults(),
            final(self).classes() == old(self).classes(),
            final(self).shared_globals() == old(self).shared_globals(),
            final(self).next_promise_id() == old(self).next_promise_id(),
    {
        let ghost vm = value@;
        let ghost n0 = self.cells().len();
        let cell = value.new_ref(&mut self.store);
        proof {
            crate::values::lemma_type_of_plain(vm, self.cells());
        }
        let variable = Variable::new(cell, &self.store);
        self.mutable_global_variables.insert(name.to_owned(), variable);
        proof {
            lemma_value_map_ok_widen(self.functions(), n0, n0 + 1);
            lemma_value_map_ok_widen(self.defaults(), n0, n0 + 1);
            lemma_instance_map_ok_widen(self.instances(), n0, n0 + 1);
            lemma_var_map_ok_widen(self.shared_globals(), n0, n0 + 1);
            lemma_var_map_ok_widen(old(self).mutable_globals(), n0, n0 + 1);
            assert(self.mutable_globals() =~= old(self).mutable_globals().insert(
                name@,
                VariableModel {
                    decl: Some(crate::values::plain_type_of(vm)),
                    val: Some(ValueModel::Ref(n0 as usize)),
                },
            ));
        }
    }
}

/// The models of a typeclass method declaration list: a bare signature
/// for an abstract method, or a named default body.
pub open spec fn method_models_of(s: Seq<Result<Type, (String, Value)>>) -> Seq<
    Result<TypeModel, (Seq<char>, ValueModel)>,
>
    decreases s,
{
    if s.len() == 0 {
        Seq::empty()
    } else {
        method_models_of(s.drop_last()).push(
            match s.last() {
                Ok(t) => Ok(t.model()),
                Err(p) => Err((p.0@, p.1.model())),
            },
        )
    }
}

/// `method_models_of` maps each declaration to its model.
proof fn lemma_method_models_of(s: Seq<Result<Type, (String, Value)>>)
    ensures
        method_models_of(s).len() == s.len(),
        forall|i: int|
            0 <= i < s.len() ==> #[trigger] method_models_of(s)[i] == (match s[i] {
                Ok(t) => Ok(t.model()),
                Err(p) => Err((p.0@, p.1.model())),
            }),
    decreases s,
{
    if s.len() > 0 {
        lemma_method_models_of(s.drop_last());
        assert forall|i: int| 0 <= i < s.len() implies #[trigger] method_models_of(s)[i] == (
        match s[i] {
            Ok(t) => Ok(t.model()),
            Err(p) => Err((p.0@, p.1.model())),
        }) by {
            if i < s.len() - 1 {
                assert(s.drop_last()[i] == s[i]);
            } else {
                assert(s[i] == s.last());
            }
        }
    }
}

/// The signature set a method list records: an abstract declaration
/// contributes its signature type, a default contributes its body's type.
pub open spec fn signatures_of(
    fs: Seq<Result<TypeModel, (Seq<char>, ValueModel)>>,
    store: Seq<ValueModel>,
) -> Seq<TypeModel>
    decreases fs,
{
    if fs.len() == 0 {
        Seq::empty()
    } else {
        signatures_of(fs.drop_last(), store).push(
            match fs.last() {
                Ok(t) => t,
                Err(p) => type_of(p.1, store),
            },
        )
    }
}

/// The default table after registering a method list: each default body is
/// inserted under its method name, in order.
pub open spec fn defaults_after(
    m: Map<Seq<char>, ValueModel>,
    fs: Seq<Result<TypeModel, (Seq<char>, ValueModel)>>,
) -> Map<Seq<char>, ValueModel>
    decreases fs,
{
    if fs.len() == 0 {
        m
    } else {
        let rest = defaults_after(m, fs.drop_last());
        match fs.last() {
            Ok(_) => rest,
            Err(p) => rest.insert(p.0, p.1),
        }
    }
}

/// The dispatch type an instance registration implements: the first type
/// parameter of a generic class application, or the class type itself.
pub open spec fn dispatch_type_of(c: TypeModel) -> TypeModel {
    match c {
        TypeModel::TypeList { name, parameters } => if parameters.len() > 0 {
            parameters[0]
        } else {
            TypeModel::TypeList { name, parameters }
        },
        _ => c,
    }
}

/// The instance tables after registering a method list for dispatch type
/// `d`: each body is prepended to its method's table, in order.
pub open spec fn instances_after(
    m: Map<Seq<char>, Seq<(TypeModel, ValueModel)>>,
    d: TypeModel,
    fs: Seq<(Seq<char>, ValueModel)>,
) -> Map<Seq<char>, Seq<(TypeModel, ValueModel)>>
    decreases fs,
{
    if fs.len() == 0 {
        m
    } else {
        let rest = instances_after(m, d, fs.drop_last());
        let nm = fs.last().0;
        let prev = if rest.contains_key(nm) {
            rest[nm]
        } else {
            Seq::empty()
        };
        rest.insert(nm, seq![(d, fs.last().1)] + prev)
    }
}

impl Environment {
    /// Declares a typeclass: records the class in the validity registry
    /// with its full signature set, and stores each default implementation
    /// in the default table, available before any instance exists.
    pub fn add_typeclass(&mut self, class: Type, functions: Vec<Result<Type, (String, Value)>>)
        requires
            old(self).wf(),
            forall|i: int|
                0 <= i < functions@.len() ==> ((#[trigger] functions@[i]) matches Err(p)
                    ==> value_ok(p.1.model(), old(self).cells().len())),
        ensures
            final(self).wf(),
            final(self).classes() == old(self).classes().push(
                (class@, signatures_of(method_models_of(functions@), old(self).cells())),
            ),
            final(self).defaults() == defaults_after(
                old(self).defaults(),
                method_models_of(functions@),
            ),
            final(self).functions() == old(self).functions(),
            final(self).instances() == old(self).instances(),
            final(self).shared_globals() == old(self).shared_globals(),
            final(self).mutable_globals() == old(self).mutable_globals(),
            final(self).cells() == old(self).cells(),
            final(self).next_promise_id() == old(self).next_promise_id(),
    {
        let ghost mm = method_models_of(functions@);
        proof {
            lemma_method_models_of(functions@);
            assert(mm.subrange(0, 0) =~= Seq::<Result<TypeModel, (Seq<char>, ValueModel)>>::empty());
        }
        let mut func_table: Vec<Type> = Vec::new();
        proof {
            crate::types::lemma_models_of(func_table@);
            assert(models_of(func_table@) =~= Seq::<TypeModel>::empty());
        }
        let n = functions.len();
        let mut i: usize = 0;
        while i < n
            invariant
                old(self).wf(),
                n == functions@.len(),
                mm == method_models_of(functions@),
                mm.len() == n,
                forall|j: int|
                    0 <= j < n ==> #[trigger] mm[j] == (match functions@[j] {
                        Ok(t) => Ok(t.model()),
                        Err(p) => Err((p.0@, p.1.model())),
                    }),
                forall|j: int|
                    0 <= j < n ==> ((#[trigger] functions@[j]) matches Err(p) ==> value_ok(
                        p.1.model(),
                        old(self).cells().len(),
                    )),
                i <= n,
                self.wf(),
                models_of(func_table@) == signatures_of(
                    mm.subrange(0, i as int),
                    old(self).cells(),
                ),
                self.defaults() == defaults_after(old(self).defaults(), mm.subrange(0, i as int)),
                self.functions() == old(self).functions(),
                self.instances() == old(self).instances(),
                self.classes() == old(self).classes(),
                self.shared_globals() == old(self).shared_globals(),
                self.mutable_globals() == old(self).mutable_globals(),
                self.cells() == old(self).cells(),
                self.next_promise_id() == old(self).next_promise_id(),
            decreases n - i,
        {
            match &functions[i] {
                Ok(the_type) => {
                    let ghost ft0 = func_table@;
                    func_table.push(the_type.dup());
                    proof {
                        assert(func_table@.drop_last() =~= ft0);
                        assert(models_of(func_table@) == models_of(ft0).push(
                            func_table@.last().model(),
                        ));
                        assert(mm.subrange(0, i as int + 1).drop_last() =~= mm.subrange(
                            0,
                            i as int,
                        ));
                        assert(mm.subrange(0, i as int + 1).last() == mm[i as int]);
                    }
                },
                Err(pair) => {
                    let ghost defaults0 = self.defaults();
                    let ghost ft0 = func_table@;
                    let fun_type = pair.1.get_type(&self.store);
                    func_table.push(fun_type);
                    let body = pair.1.dup();
                    self.default_symbol_table.insert(pair.0.clone(), body);
                    proof {
                        assert(self.defaults() =~= defaults0.insert(
                            pair.0@,
                            pair.1.model(),
                        ));
                        assert(func_table@.drop_last() =~= ft0);
                        assert(models_of(func_table@) == models_of(ft0).push(
                            func_table@.last().model(),
                        ));
                        assert(mm.subrange(0, i as int + 1).drop_last() =~= mm.subrange(
                            0,
                            i as int,
                        ));
                        assert(mm.subrange(0, i as int + 1).last() == mm[i as int]);
                    }
                },
            }
            i += 1;
        }
        proof {
            assert(mm.subrange(0, n as int) =~= mm);
        }
        self.valid_typeclasses.insert(class, func_table);
    }

    /// Registers a typeclass instance: fails with `UnknownTypeclass` when
    /// no declared class unifies with `class`; otherwise inserts each body
    /// into the instance table of its method, keyed by the dispatch type
    /// the instance implements.
    pub fn add_typeclass_instance(&mut self, class: Type, functions: Vec<(String, Value)>) -> (r:
        Result<(), Error>)
        requires
            old(self).wf(),
            forall|i: int|
                0 <= i < functions@.len() ==> value_ok(
                    (#[trigger] functions@[i]).1.model(),
                    old(self).cells().len(),
                ),
        ensures
            final(self).wf(),
            !has_class(old(self).classes(), class@) ==> (r matches Err(e) && e@
                == ErrorModel::UnknownTypeclass && final(self).instances() == old(self).instances()),
            has_class(old(self).classes(), class@) ==> (r is Ok && final(self).instances()
                == instances_after(
                old(self).instances(),
                dispatch_type_of(class@),
                crate::scope::entry_models_of(functions@),
            )),
            final(self).functions() == old(self).functions(),
            final(self).defaults() == old(self).defaults(),
            final(self).classes() == old(self).classes(),
            final(self).shared_globals() == old(self).shared_globals(),
            final(self).mutable_globals() == old(self).mutable_globals(),
            final(self).cells() == old(self).cells(),
            final(self).next_promise_id() == old(self).next_promise_id(),
    {
        if !self.valid_typeclasses.contains(&class) {
            return Err(Error::UnknownTypeclass);
        }
        let dispatch: Type = match &class {
            Type::TypeList { parameters, .. } => {
                if parameters.len() > 0 {
                    proof {
                        crate::types::lemma_models_of(parameters@);
                    }
                    parameters[0].dup()
                } else {
                    class.dup()
                }
            },
            _ => class.dup(),
        };
        let ghost d = dispatch_type_of(class@);
        let ghost em = crate::scope::entry_models_of(functions@);
        proof {
            crate::scope::lemma_entry_models_of(functions@);
            assert(em.subrange(0, 0) =~= Seq::<(Seq<char>, ValueModel)>::empty());
        }
        let n = functions.len();
        let mut i: usize = 0;
        while i < n
            invariant
                old(self).wf(),
                n == functions@.len(),
                dispatch@ == d,
                d == dispatch_type_of(class@),
                em == crate::scope::entry_models_of(functions@),
                em.len() == n,
                forall|j: int|
                    0 <= j < n ==> #[trigger] em[j] == (
                    functions@[j].0@,
                    functions@[j].1.model(),
                    ),
                forall|j: int|
                    0 <= j < n ==> value_ok(
                        (#[trigger] functions@[j]).1.model(),
                        old(self).cells().len(),
                    ),
                i <= n,
                self.wf(),
                self.instances() == instances_after(
                    old(self).instances(),
                    d,
                    em.subrange(0, i as int),
                ),
                self.functions() == old(self).functions(),
                self.defaults() == old(self).defaults(),
                self.classes() == old(self).classes(),
                self.shared_globals() == old(self).shared_globals(),
                self.mutable_globals() == old(self).mutable_globals(),
                self.cells() == old(self).cells(),
                self.next_promise_id() == old(self).next_promise_id(),
            decreases n - i,
        {
            let ghost instances0 = self.instances();
            let name = &functions[i].0;
            let mut table = match self.type_class_symbol_table.get(name.as_str()) {
                Some(t) => t.dup(),
                None => InstanceTable::new(),
            };
            let ghost prev = table@;
            table.insert(dispatch.dup(), functions[i].1.dup());
            self.type_class_symbol_table.insert(name.clone(), table);
            proof {
                assert(self.instances() =~= instances0.insert(name@, seq![(d, em[i as int].1)]
                    + prev));
                assert(em.subrange(0, i as int + 1).drop_last() =~= em.subrange(0, i as int));
                assert(em.subrange(0, i as int + 1).last() == em[i as int]);
                assert forall|k: Seq<char>, j: int|
                    self.instances().contains_key(k) && 0 <= j < self.instances()[k].len() implies value_ok(
                    (#[trigger] self.instances()[k][j]).1,
                    self.cells().len(),
                ) by {
                    if k == name@ {
                        if j > 0 {
                            assert(self.instances()[k][j] == prev[j - 1]);
                            assert(instances0.contains_key(name@) && prev == instances0[name@]);
                        }
                    } else {
                        assert(self.instances()[k] == instances0[k]);
                    }
                }
            }
            i += 1;
        }
        proof {
            assert(em.subrange(0, n as int) =~= em);
        }
        Ok(())
    }
}

/// One interpreter instance: the thread-local global tier.  All other
/// state is shared through the [`Environment`] handed to each call.
pub struct Interpreter {
    local_global_variables: StringHashMap<Variable>,
}

impl Interpreter {
    /// The thread-local global tier.
    pub closed spec fn locals(&self) -> Map<Seq<char>, VariableModel> {
        self.local_global_variables@.map_values(|v: Variable| v.model())
    }

    /// Whether every thread-local variable is well formed against a store
    /// of `n` slots.
    pub open spec fn wf(&self, n: nat) -> bool {
        var_map_ok(self.locals(), n)
    }

    /// A fresh interpreter with an empty thread-local tier.
    pub fn new() -> (r: Interpreter)
        ensures
            r.locals() == Map::<Seq<char>, VariableModel>::empty(),
    {
        let r = Interpreter { local_global_variables: StringHashMap::new() };
        proof {
            assert(r.locals() =~= Map::<Seq<char>, VariableModel>::empty());
        }
        r
    }

    /// The interpreter for a spawned thread.  It shares every table of the
    /// environment it is used with; the thread-local tier is never
    /// inherited and starts empty.
    pub fn new_for_thread(&self) -> (r: Interpreter)
        ensures
            r.locals() == Map::<Seq<char>, VariableModel>::empty(),
    {
        Interpreter::new()
    }

    /// Declares a thread-local global, mutable or immutable.  A mutable
    /// one lives in a fresh cell of the store; it is still private to this
    /// interpreter instance.
    pub fn declare_thread_global(
        &mut self,
        env: &mut Environment,
        name: &str,
        value: Value,
        mutable: bool,
    )
        requires
            old(env).wf(),
            old(self).wf(old(env).cells().len()),
            ref_free(value@),
            scopes_wf(value@),
        ensures
            final(env).wf(),
            final(self).wf(final(env).cells().len()),
            mutable ==> final(env).cells() == old(env).cells().push(value@) && final(self).locals() == old(self).locals().insert(
                name@,
                VariableModel {
                    decl: Some(crate::values::plain_type_of(value@)),
                    val: Some(ValueModel::Ref(old(env).cells().len() as usize)),
                },
            ),
            !mutable ==> final(env).cells() == old(env).cells() && final(self).locals() == old(self).locals().insert(
                name@,
                VariableModel {
                    decl: Some(crate::values::plain_type_of(value@)),
                    val: Some(value@),
                },
            ),
            final(env).functions() == old(env).functions(),
            final(env).instances() == old(env).instances(),
            final(env).defaults() == old(env).defaults(),
            final(env).classes() == old(env).classes(),
            final(env).shared_globals() == old(env).shared_globals(),
            final(env).mutable_globals() == old(env).mutable_globals(),
            final(env).next_promise_id() == old(env).next_promise_id(),
    {
        let ghost vm = value@;
        let ghost n0 = env.cells().len();
        if mutable {
            let cell = value.new_ref(&mut env.store);
            proof {
                crate::values::lemma_type_of_plain(vm, env.cells());
            }
            let variable = Variable::new(cell, &env.store);
            self.local_global_variables.insert(name.to_owned(), variable);
            proof {
                lemma_value_map_ok_widen(env.functions(), n0, n0 + 1);
                lemma_value_map_ok_widen(env.defaults(), n0, n0 + 1);
                lemma_instance_map_ok_widen(env.instances(), n0, n0 + 1);
                lemma_var_map_ok_widen(env.shared_globals(), n0, n0 + 1);
                lemma_var_map_ok_widen(env.mutable_globals(), n0, n0 + 1);
                lemma_var_map_ok_widen(old(self).locals(), n0, n0 + 1);
                assert(self.locals() =~= old(self).locals().insert(
                    name@,
                    VariableModel {
                        decl: Some(crate::values::plain_type_of(vm)),
                        val: Some(ValueModel::Ref(n0 as usize)),
                    },
                ));
            }
        } else {
            proof {
                crate::values::lemma_ref_free_val_wf(vm, n0);
                crate::values::lemma_type_of_plain(vm, env.cells());
            }
            let variable = Variable::new(value, &env.store);
            self.local_global_variables.insert(name.to_owned(), variable);
            proof {
                assert(self.locals() =~= old(self).locals().insert(
                    name@,
                    VariableModel { decl: Some(crate::values::plain_type_of(vm)), val: Some(vm) },
                ));
            }
        }
    }
}

/// The snapshot read from a variable, if it holds a value.
pub open spec fn var_snapshot(v: VariableModel, store: Seq<ValueModel>) -> Option<ValueModel> {
    match v.val {
        Some(m) => Some(snapshot_of(m, store)),
        None => None,
    }
}

/// What a read of `name` returns, searching the function-local scope,
/// then the thread-local tier, then the shared-immutable tier, then the
/// shared-mutable tier; the innermost hit wins.  A scope hit returns the
/// bound value itself; a tier hit returns a snapshot of the variable.
pub open spec fn read_value(
    tl: Map<Seq<char>, VariableModel>,
    sh: Map<Seq<char>, VariableModel>,
    mu: Map<Seq<char>, VariableModel>,
    store: Seq<ValueModel>,
    scope: Seq<(Seq<char>, ValueModel)>,
    name: Seq<char>,
) -> Option<ValueModel> {
    if assoc_find(scope, name) is Some {
        assoc_find(scope, name)
    } else if tl.contains_key(name) {
        var_snapshot(tl[name], store)
    } else if sh.contains_key(name) {
        var_snapshot(sh[name], store)
    } else if mu.contains_key(name) {
        var_snapshot(mu[name], store)
    } else {
        None
    }
}

/// What a read of `name` would have to copy.  Only duplicable values may
/// be read out: a promise or a reference must not be copied, and a hit on
/// a variable that was declared but never bound has no value to read.
pub open spec fn read_value_pre(
    tl: Map<Seq<char>, VariableModel>,
    sh: Map<Seq<char>, VariableModel>,
    mu: Map<Seq<char>, VariableModel>,
    store: Seq<ValueModel>,
    scope: Seq<(Seq<char>, ValueModel)>,
    name: Seq<char>,
) -> bool {
    if assoc_find(scope, name) is Some {
        duplicable(assoc_find(scope, name)->0)
    } else if tl.contains_key(name) {
        tl[name].val matches Some(m) && duplicable(snapshot_of(m, store))
    } else if sh.contains_key(name) {
        sh[name].val matches Some(m) && duplicable(snapshot_of(m, store))
    } else if mu.contains_key(name) {
        mu[name].val matches Some(m) && duplicable(snapshot_of(m, store))
    } else {
        true
    }
}

/// The storage class an assignment to `name` targets.  The write order is
/// deliberately not the mirror of the read order: the shared-mutable tier
/// is consulted first, so a canonical global slot is always preferred.
pub enum WriteTier {
    SharedMutable,
    SharedImmutable,
    ThreadLocal,
    CallScope,
    Unbound,
}

/// Which storage class an assignment to `name` targets.
pub open spec fn write_tier(
    mu: Map<Seq<char>, VariableModel>,
    sh: Map<Seq<char>, VariableModel>,
    tl: Map<Seq<char>, VariableModel>,
    scope: Seq<(Seq<char>, ValueModel)>,
    name: Seq<char>,
) -> WriteTier {
    if mu.contains_key(name) {
        WriteTier::SharedMutable
    } else if sh.contains_key(name) {
        WriteTier::SharedImmutable
    } else if tl.contains_key(name) {
        WriteTier::ThreadLocal
    } else if assoc_find(scope, name) is Some {
        WriteTier::CallScope
    } else {
        WriteTier::Unbound
    }
}

impl Interpreter {
    /// Reads `name`: function-local scope first, then the thread-local,
    /// shared-immutable and shared-mutable global tiers.  Returns `None`
    /// when no scope or tier binds the name.
    pub fn get_value(&self, env: &Environment, name: &str, function_variables: &Scope) -> (r:
        Option<Value>)
        requires
            env.wf(),
            self.wf(env.cells().len()),
            locals_ok(function_variables@, env.cells().len()),
            read_value_pre(
                self.locals(),
                env.shared_globals(),
                env.mutable_globals(),
                env.cells(),
                function_variables@,
                name@,
            ),
        ensures
            match r {
                Some(v) => read_value(
                    self.locals(),
                    env.shared_globals(),
                    env.mutable_globals(),
                    env.cells(),
                    function_variables@,
                    name@,
                ) == Some(v@),
                None => read_value(
                    self.locals(),
                    env.shared_globals(),
                    env.mutable_globals(),
                    env.cells(),
                    function_variables@,
                    name@,
                ) is None,
            },
    {
        let owned = name.to_owned();
        match function_variables.get(&owned) {
            Some(variable) => {
                return Some(variable.dup());
            },
            None => {},
        }
        match self.local_global_variables.get(name) {
            Some(variable) => {
                return Some(variable.get_immutable(&env.store));
            },
            None => {},
        }
        match env.shared_global_variables.get(name) {
            Some(variable) => {
                return Some(variable.get_immutable(&env.store));
            },
            None => {},
        }
        match env.mutable_global_variables.get(name) {
            Some(variable) => {
                return Some(variable.get_immutable(&env.store));
            },
            None => {},
        }
        None
    }
}

impl Interpreter {
    /// Assigns `value` to `name`.  The write order is: the shared-mutable
    /// tier, then the shared-immutable tier (always a fatal
    /// `ImmutableAssignment`), then the thread-local tier, then the
    /// function-local scope; an unbound name fails with `UnboundName`.
    /// Every successful write is type-stable against the target's type; a
    /// scope entry's bind is unconditional, through its cell when it has
    /// one and by replacement otherwise.
    pub fn set_value(
        &mut self,
        env: &mut Environment,
        name: &str,
        function_variables: &mut Scope,
        value: Value,
    ) -> (r: Result<(), Error>)
        requires
            old(env).wf(),
            old(self).wf(old(env).cells().len()),
            locals_ok(old(function_variables)@, old(env).cells().len()),
            ref_free(value@),
            scopes_wf(value@),
        ensures
            final(env).wf(),
            final(self).wf(final(env).cells().len()),
            final(function_variables).wf(),
            locals_ok(final(function_variables)@, final(env).cells().len()),
            final(env).cells().len() == old(env).cells().len(),
            final(env).functions() == old(env).functions(),
            final(env).instances() == old(env).instances(),
            final(env).defaults() == old(env).defaults(),
            final(env).classes() == old(env).classes(),
            final(env).shared_globals() == old(env).shared_globals(),
            final(env).next_promise_id() == old(env).next_promise_id(),
            write_tier(
                old(env).mutable_globals(),
                old(env).shared_globals(),
                old(self).locals(),
                old(function_variables)@,
                name@,
            ) matches WriteTier::SharedMutable ==> {
                let var = old(env).mutable_globals()[name@];
                &&& final(self).locals() == old(self).locals()
                &&& final(function_variables)@ == old(function_variables)@
                &&& !type_equal(
                    crate::variable::declared_type_model(var.decl),
                    type_of(value@, old(env).cells()),
                ) ==> (r matches Err(e) && e@ == ErrorModel::TypeMismatch {
                    function: None,
                    expected: crate::variable::declared_type_model(var.decl),
                    actual: type_of(value@, old(env).cells()),
                } && final(env).cells() == old(env).cells() && final(env).mutable_globals()
                    == old(env).mutable_globals())
                &&& type_equal(
                    crate::variable::declared_type_model(var.decl),
                    type_of(value@, old(env).cells()),
                ) ==> {
                    &&& var.val matches Some(ValueModel::Ref(i)) ==> (r is Ok && final(env).cells() == old(env).cells().update(i as int, value@) && final(env).mutable_globals() == old(env).mutable_globals())
                    &&& (var.val matches Some(m) && !(m is Ref)) ==> (r matches Err(e) && e@
                        == ErrorModel::ImmutableAssignment && final(env).cells() == old(env).cells() && final(env).mutable_globals() == old(env).mutable_globals())
                    &&& var.val is None ==> (r is Ok && final(env).cells() == old(env).cells()
                        && final(env).mutable_globals() == old(env).mutable_globals().insert(
                        name@,
                        VariableModel { decl: var.decl, val: Some(value@) },
                    ))
                }
            },
            write_tier(
                old(env).mutable_globals(),
                old(env).shared_globals(),
                old(self).locals(),
                old(function_variables)@,
                name@,
            ) matches WriteTier::SharedImmutable ==> (r matches Err(e) && e@
                == ErrorModel::ImmutableAssignment && final(env).cells() == old(env).cells()
                && final(env).mutable_globals() == old(env).mutable_globals() && final(self).locals() == old(self).locals() && final(function_variables)@ == old(function_variables)@),
            write_tier(
                old(env).mutable_globals(),
                old(env).shared_globals(),
                old(self).locals(),
                old(function_variables)@,
                name@,
            ) matches WriteTier::ThreadLocal ==> {
                let var = old(self).locals()[name@];
                &&& final(env).mutable_globals() == old(env).mutable_globals()
                &&& final(function_variables)@ == old(function_variables)@
                &&& !(var.val matches Some(m) && m is Ref) ==> (r matches Err(e) && e@
                    == ErrorModel::ImmutableAssignment && final(env).cells() == old(env).cells()
                    && final(self).locals() == old(self).locals())
                &&& var.val matches Some(ValueModel::Ref(i)) ==> {
                    &&& !type_equal(
                        crate::variable::declared_type_model(var.decl),
                        type_of(value@, old(env).cells()),
                    ) ==> (r matches Err(e) && e@ == ErrorModel::TypeMismatch {
                        function: None,
                        expected: crate::variable::declared_type_model(var.decl),
                        actual: type_of(value@, old(env).cells()),
                    } && final(env).cells() == old(env).cells() && final(self).locals() == old(self).locals())
                    &&& type_equal(
                        crate::variable::declared_type_model(var.decl),
                        type_of(value@, old(env).cells()),
                    ) ==> (r is Ok && final(env).cells() == old(env).cells().update(
                        i as int,
                        value@,
                    ) && final(self).locals() == old(self).locals())
                }
            },
            write_tier(
                old(env).mutable_globals(),
                old(env).shared_globals(),
                old(self).locals(),
                old(function_variables)@,
                name@,
            ) matches WriteTier::CallScope ==> {
                let entry = assoc_find(old(function_variables)@, name@)->0;
                &&& final(self).locals() == old(self).locals()
                &&& final(env).mutable_globals() == old(env).mutable_globals()
                &&& !type_equal(
                    type_of(entry, old(env).cells()),
                    type_of(value@, old(env).cells()),
                ) ==> (r matches Err(e) && e@ == ErrorModel::TypeMismatch {
                    function: None,
                    expected: type_of(entry, old(env).cells()),
                    actual: type_of(value@, old(env).cells()),
                } && final(env).cells() == old(env).cells() && final(function_variables)@ == old(function_variables)@)
                &&& type_equal(type_of(entry, old(env).cells()), type_of(value@, old(env).cells()))
                    ==> {
                    &&& entry matches ValueModel::Ref(i) ==> (r is Ok && final(env).cells()
                        == old(env).cells().update(i as int, value@) && final(function_variables)@
                        == old(function_variables)@)
                    &&& !(entry is Ref) ==> (r is Ok && final(env).cells() == old(env).cells()
                        && assoc_find(final(function_variables)@, name@) == Some(value@) && (
                    forall|k: Seq<char>|
                        k != name@ ==> assoc_find(final(function_variables)@, k) == assoc_find(
                            old(function_variables)@,
                            k,
                        )))
                }
            },
            write_tier(
                old(env).mutable_globals(),
                old(env).shared_globals(),
                old(self).locals(),
                old(function_variables)@,
                name@,
            ) matches WriteTier::Unbound ==> (r matches Err(e) && e@ == ErrorModel::UnboundName(
                name@,
            ) && final(env).cells() == old(env).cells() && final(env).mutable_globals() == old(env).mutable_globals() && final(self).locals() == old(self).locals() && final(function_variables)@
                == old(function_variables)@),
    {
        if env.mutable_global_variables.contains_key(name) {
            let mut variable = match env.mutable_global_variables.get(name) {
                Some(v) => v.dup(),
                None => {
                    proof {
                        assert(false);
                    }
                    Variable::new_declared(None)
                },
            };
            proof {
                crate::values::lemma_ref_free_val_wf(value@, env.cells().len());
            }
            let r = variable.assign_value(&mut env.store, value);
            env.mutable_global_variables.insert(name.to_owned(), variable);
            proof {
                if old(env).mutable_globals()[name@].val is None && r is Ok {
                    assert(env.mutable_globals() =~= old(env).mutable_globals().insert(
                        name@,
                        VariableModel {
                            decl: old(env).mutable_globals()[name@].decl,
                            val: Some(value@),
                        },
                    ));
                } else {
                    assert(env.mutable_globals() =~= old(env).mutable_globals());
                }
            }
            return r;
        }
        if env.shared_global_variables.contains_key(name) {
            return Err(Error::ImmutableAssignment);
        }
        if self.local_global_variables.contains_key(name) {
            let mut variable = match self.local_global_variables.get(name) {
                Some(v) => v.dup(),
                None => {
                    proof {
                        assert(false);
                    }
                    Variable::new_declared(None)
                },
            };
            if !variable.is_mutable() {
                return Err(Error::ImmutableAssignment);
            }
            let r = variable.set_value(&mut env.store, value);
            self.local_global_variables.insert(name.to_owned(), variable);
            proof {
                assert(self.locals() =~= old(self).locals());
            }
            return r;
        }
        let owned = name.to_owned();
        let entry_copy = match function_variables.get(&owned) {
            Some(entry) => {
                proof {
                    crate::scope::lemma_assoc_find_some(old(function_variables)@, owned@);
                    let i = choose|i: int|
                        0 <= i < old(function_variables)@.len() && #[trigger] old(
                            function_variables,
                        )@[i] == (owned@, entry@);
                    assert(value_ok(old(function_variables)@[i].1, env.cells().len()));
                }
                entry.dup()
            },
            None => {
                return Err(Error::UnboundName(owned));
            },
        };
        proof {
            crate::values::lemma_ref_free_val_wf(value@, env.cells().len());
        }
        let expected = entry_copy.get_type(&env.store);
        let actual = value.get_type(&env.store);
        if !expected.equal(&actual) {
            return Err(Error::TypeMismatch { function: None, expected: expected, actual: actual });
        }
        if entry_copy.is_ref() {
            entry_copy.set_value(&mut env.store, value);
            Ok(())
        } else {
            let ghost scope_before = function_variables@;
            let ghost vm = value@;
            function_variables.insert(owned, value);
            proof {
                lemma_locals_ok_insert(
                    scope_before,
                    function_variables@,
                    name@,
                    vm,
                    env.cells().len(),
                );
            }
            Ok(())
        }
    }
}

/// Which callable a call of `name` resolves to, consulting in order: the
/// named-function table, the instance table keyed by the first argument's
/// type, the typeclass-default table, and finally a local variable holding
/// a function value (read as a snapshot).
pub open spec fn resolve_function(
    functions: Map<Seq<char>, ValueModel>,
    instances: Map<Seq<char>, Seq<(TypeModel, ValueModel)>>,
    defaults: Map<Seq<char>, ValueModel>,
    scope: Seq<(Seq<char>, ValueModel)>,
    store: Seq<ValueModel>,
    name: Seq<char>,
    args: Seq<ValueModel>,
) -> Option<ValueModel> {
    if functions.contains_key(name) {
        Some(functions[name])
    } else if args.len() > 0 && instances.contains_key(name) && type_find(
        instances[name],
        type_of(args[0], store),
    ) is Some {
        type_find(instances[name], type_of(args[0], store))
    } else if defaults.contains_key(name) {
        Some(defaults[name])
    } else if assoc_find(scope, name) is Some {
        Some(snapshot_of(assoc_find(scope, name)->0, store))
    } else {
        None
    }
}

/// Whether a declared parameter type is a reference type, so the argument
/// is bound by live alias rather than by copy.
pub open spec fn param_is_ref(p: Option<TypeModel>) -> bool {
    p matches Some(TypeModel::Ref(_))
}

/// The value a parameter binds: the argument itself for a reference-typed
/// parameter, an immutable snapshot otherwise.
pub open spec fn bind_val(p: Option<TypeModel>, a: ValueModel, store: Seq<ValueModel>) -> ValueModel {
    if param_is_ref(p) {
        a
    } else {
        snapshot_of(a, store)
    }
}

/// What the bound call scope maps `k` to after binding the first `n`
/// parameter/argument pairs over the closure scope: the latest binding of
/// `k` wins, else the closure's own binding.
pub open spec fn bind_upto(
    closure: Seq<(Seq<char>, ValueModel)>,
    params: Seq<(Seq<char>, Option<TypeModel>)>,
    args: Seq<ValueModel>,
    store: Seq<ValueModel>,
    n: int,
    k: Seq<char>,
) -> Option<ValueModel>
    decreases n,
{
    if n <= 0 {
        assoc_find(closure, k)
    } else if params[n - 1].0 == k {
        Some(bind_val(params[n - 1].1, args[n - 1], store))
    } else {
        bind_upto(closure, params, args, store, n - 1, k)
    }
}

/// Whether the `i`-th argument's type unifies with the declared parameter
/// type.
pub open spec fn arg_ok(p: Option<TypeModel>, a: ValueModel, store: Seq<ValueModel>) -> bool {
    type_equal(crate::values::opt_type_model(p), type_of(a, store))
}

/// The least index at or after `i` (up to `m`) whose argument fails the
/// parameter type check, or `m` when all pairs unify.
pub open spec fn first_mismatch(
    params: Seq<(Seq<char>, Option<TypeModel>)>,
    args: Seq<ValueModel>,
    store: Seq<ValueModel>,
    i: int,
    m: int,
) -> int
    decreases m - i,
{
    if i >= m {
        m
    } else if !arg_ok(params[i].1, args[i], store) {
        i
    } else {
        first_mismatch(params, args, store, i + 1, m)
    }
}

/// If the pairs before `i` unify, the first mismatch is not before `i`.
proof fn lemma_first_mismatch_from(
    params: Seq<(Seq<char>, Option<TypeModel>)>,
    args: Seq<ValueModel>,
    store: Seq<ValueModel>,
    i: int,
    m: int,
)
    requires
        0 <= i <= m,
        forall|j: int| 0 <= j < i ==> arg_ok((#[trigger] params[j]).1, args[j], store),
    ensures
        first_mismatch(params, args, store, 0, m) == first_mismatch(params, args, store, i, m),
    decreases i,
{
    if i > 0 {
        lemma_first_mismatch_from(params, args, store, i - 1, m);
        assert(first_mismatch(params, args, store, i - 1, m) == first_mismatch(
            params,
            args,
            store,
            i,
            m,
        ));
    }
}

/// The first mismatch lies between `i` and `m`.
proof fn lemma_first_mismatch_bounds(
    params: Seq<(Seq<char>, Option<TypeModel>)>,
    args: Seq<ValueModel>,
    store: Seq<ValueModel>,
    i: int,
    m: int,
)
    requires
        i <= m,
    ensures
        i <= first_mismatch(params, args, store, i, m) <= m,
    decreases m - i,
{
    if i < m && arg_ok(params[i].1, args[i], store) {
        lemma_first_mismatch_bounds(params, args, store, i + 1, m);
    }
}

/// A found body is one of the table's entries.
proof fn lemma_type_find_some(s: Seq<(TypeModel, ValueModel)>, k: TypeModel)
    ensures
        type_find(s, k) matches Some(v) ==> exists|i: int|
            0 <= i < s.len() && (#[trigger] s[i]).1 == v,
    decreases s,
{
    if s.len() > 0 {
        if type_equal(s[0].0, k) {
            match type_find(s, k) {
                Some(v) => {
                    assert(s[0].1 == v);
                },
                None => {},
            }
        } else {
            lemma_type_find_some(s.drop_first(), k);
            match type_find(s, k) {
                Some(v) => {
                    let j = choose|j: int|
                        0 <= j < s.drop_first().len() && (#[trigger] s.drop_first()[j]).1 == v;
                    assert(s[j + 1].1 == v);
                },
                None => {},
            }
        }
    }
}

/// Inserting a well-formed value into a well-formed scope keeps the scope
/// well formed.
proof fn lemma_locals_ok_insert(
    s_old: Seq<(Seq<char>, ValueModel)>,
    s_new: Seq<(Seq<char>, ValueModel)>,
    k: Seq<char>,
    v: ValueModel,
    n: nat,
)
    requires
        locals_ok(s_old, n),
        value_ok(v, n),
        assoc_unique(s_new),
        assoc_find(s_new, k) == Some(v),
        forall|k2: Seq<char>| k2 != k ==> assoc_find(s_new, k2) == assoc_find(s_old, k2),
    ensures
        locals_ok(s_new, n),
{
    crate::scope::lemma_assoc_unique_find(s_new);
    assert forall|i: int| 0 <= i < s_new.len() implies value_ok((#[trigger] s_new[i]).1, n) by {
        let kk = s_new[i].0;
        let vv = s_new[i].1;
        assert(assoc_find(s_new, kk) == Some(vv));
        if kk != k {
            assert(assoc_find(s_old, kk) == Some(vv));
            crate::scope::lemma_assoc_find_some(s_old, kk);
            let j = choose|j: int| 0 <= j < s_old.len() && #[trigger] s_old[j] == (kk, vv);
            assert(value_ok(s_old[j].1, n));
        }
    }
}

/// A prepared invocation: the bound call scope and the opaque body handle
/// for the outside evaluator to run, either in place or on a new thread.
pub enum Invocation {
    /// Run the body synchronously with the bound scope.
    Direct { scope: Scope, body: String },
    /// Spawn the body on a new thread under the given per-thread
    /// interpreter, and hand the promise back to the caller at once.
    Spawned { interpreter: Interpreter, scope: Scope, body: String, promise: Value },
}

impl Interpreter {
    /// Resolves `name` to a callable and prepares its invocation: each
    /// argument is type-checked against the declared parameter type and
    /// bound into the closure scope, by live alias for a reference-typed
    /// parameter and as an immutable snapshot otherwise.  A call whose
    /// spawn flag is set must not pass by reference; it yields a
    /// [`Invocation::Spawned`] carrying a fresh promise, and never blocks.
    pub fn call_function(
        &self,
        env: &mut Environment,
        name: &str,
        arguments: Vec<Value>,
        local_variables: &Scope,
    ) -> (r: Result<Invocation, Error>)
        requires
            old(env).wf(),
            locals_ok(local_variables@, old(env).cells().len()),
            forall|i: int|
                0 <= i < arguments@.len() ==> value_ok(
                    #[trigger] value_models_of(arguments@)[i],
                    old(env).cells().len(),
                ),
            resolve_function(
                old(env).functions(),
                old(env).instances(),
                old(env).defaults(),
                local_variables@,
                old(env).cells(),
                name@,
                value_models_of(arguments@),
            ) matches Some(fm) ==> duplicable(fm),
            resolve_function(
                old(env).functions(),
                old(env).instances(),
                old(env).defaults(),
                local_variables@,
                old(env).cells(),
                name@,
                value_models_of(arguments@),
            ) matches Some(ValueModel::Function { parameters, .. }) ==> (forall|i: int|
                0 <= i < first_mismatch(
                    parameters,
                    value_models_of(arguments@),
                    old(env).cells(),
                    0,
                    vstd::math::min(parameters.len() as int, arguments@.len() as int),
                ) ==> (if param_is_ref((#[trigger] parameters[i]).1) {
                    value_models_of(arguments@)[i] is Ref || duplicable(
                        value_models_of(arguments@)[i],
                    )
                } else {
                    duplicable(snapshot_of(value_models_of(arguments@)[i], old(env).cells()))
                })),
            resolve_function(
                old(env).functions(),
                old(env).instances(),
                old(env).defaults(),
                local_variables@,
                old(env).cells(),
                name@,
                value_models_of(arguments@),
            ) matches Some(ValueModel::Function { threaded: true, .. }) ==> old(
                env,
            ).next_promise_id() < u64::MAX,
        ensures
            final(env).wf(),
            final(env).functions() == old(env).functions(),
            final(env).instances() == old(env).instances(),
            final(env).defaults() == old(env).defaults(),
            final(env).classes() == old(env).classes(),
            final(env).shared_globals() == old(env).shared_globals(),
            final(env).mutable_globals() == old(env).mutable_globals(),
            final(env).cells() == old(env).cells(),
            resolve_function(
                old(env).functions(),
                old(env).instances(),
                old(env).defaults(),
                local_variables@,
                old(env).cells(),
                name@,
                value_models_of(arguments@),
            ) is None ==> (r matches Err(e) && e@ == ErrorModel::UnboundName(name@) && final(env).next_promise_id() == old(env).next_promise_id()),
            (resolve_function(
                old(env).functions(),
                old(env).instances(),
                old(env).defaults(),
                local_variables@,
                old(env).cells(),
                name@,
                value_models_of(arguments@),
            ) matches Some(fm) && !(fm is Function)) ==> (r matches Err(e) && e@
                == ErrorModel::InvalidCall(name@) && final(env).next_promise_id() == old(env).next_promise_id()),
            resolve_function(
                old(env).functions(),
                old(env).instances(),
                old(env).defaults(),
                local_variables@,
                old(env).cells(),
                name@,
                value_models_of(arguments@),
            ) matches Some(
                ValueModel::Function { threaded, parameters, effects, return_type, closure, body },
            ) ==> {
                let am = value_models_of(arguments@);
                let store0 = old(env).cells();
                let m = vstd::math::min(parameters.len() as int, am.len() as int);
                let fb = first_mismatch(parameters, am, store0, 0, m);
                &&& fb < m ==> (r matches Err(e) && e@ == ErrorModel::TypeMismatch {
                    function: Some(name@),
                    expected: crate::values::opt_type_model(parameters[fb].1),
                    actual: type_of(am[fb], store0),
                } && final(env).next_promise_id() == old(env).next_promise_id())
                &&& (fb == m && threaded && (exists|j: int|
                    0 <= j < m && param_is_ref((#[trigger] parameters[j]).1))) ==> (r matches Err(
                    e,
                ) && e@ == ErrorModel::ReferenceInThreadedCall && final(env).next_promise_id()
                    == old(env).next_promise_id())
                &&& (fb == m && !threaded) ==> (r matches Ok(inv) && inv matches Invocation::Direct {
                    scope,
                    body: b,
                } && b@ == body && scope.wf() && locals_ok(scope@, store0.len()) && (forall|
                    k: Seq<char>,
                |
                    assoc_find(scope@, k) == bind_upto(closure, parameters, am, store0, m, k))
                    && final(env).next_promise_id() == old(env).next_promise_id())
                &&& (fb == m && threaded && !(exists|j: int|
                    0 <= j < m && param_is_ref((#[trigger] parameters[j]).1))) ==> (r matches Ok(
                    inv,
                ) && inv matches Invocation::Spawned {
                    interpreter,
                    scope,
                    body: b,
                    promise,
                } && b@ == body && scope.wf() && locals_ok(scope@, store0.len()) && (forall|
                    k: Seq<char>,
                |
                    assoc_find(scope@, k) == bind_upto(closure, parameters, am, store0, m, k))
                    && promise@ == ValueModel::Promise(old(env).next_promise_id(), return_type)
                    && interpreter.locals() == Map::<Seq<char>, VariableModel>::empty() && final(env).next_promise_id() == old(env).next_promise_id() + 1)
            },
    {
        let ghost am = value_models_of(arguments@);
        let ghost rf = resolve_function(
            env.functions(),
            env.instances(),
            env.defaults(),
            local_variables@,
            env.cells(),
            name@,
            am,
        );
        proof {
            crate::values::lemma_value_models_of(arguments@);
        }
        let owned = name.to_owned();
        let mut resolved: Option<Value> = None;
        match env.function_symbol_table.get(name) {
            Some(f) => {
                proof {
                    assert(value_ok(env.functions()[name@], env.cells().len()));
                }
                resolved = Some(f.dup());
            },
            None => {},
        }
        if resolved.is_none() && arguments.len() > 0 {
            match env.type_class_symbol_table.get(name) {
                Some(table) => {
                    let arg_type = arguments[0].get_type(&env.store);
                    match table.get(&arg_type) {
                        Some(f) => {
                            proof {
                                lemma_type_find_some(env.instances()[name@], arg_type@);
                                let i = choose|i: int|
                                    0 <= i < env.instances()[name@].len() && (#[trigger] env.instances()[name@][i]).1 == f.model();
                                assert(value_ok(env.instances()[name@][i].1, env.cells().len()));
                            }
                            resolved = Some(f.dup());
                        },
                        None => {},
                    }
                },
                None => {},
            }
        }
        if resolved.is_none() {
            match env.default_symbol_table.get(name) {
                Some(f) => {
                    proof {
                        assert(value_ok(env.defaults()[name@], env.cells().len()));
                    }
                    resolved = Some(f.dup());
                },
                None => {},
            }
        }
        if resolved.is_none() {
            match local_variables.get(&owned) {
                Some(entry) => {
                    proof {
                        crate::scope::lemma_assoc_find_some(local_variables@, owned@);
                        let i = choose|i: int|
                            0 <= i < local_variables@.len() && #[trigger] local_variables@[i] == (
                            owned@,
                            entry@,
                            );
                        assert(value_ok(local_variables@[i].1, env.cells().len()));
                        match entry@ {
                            ValueModel::Ref(slot) => {
                                crate::values::lemma_ref_free_val_wf(
                                    env.cells()[slot as int],
                                    env.cells().len(),
                                );
                            },
                            _ => {},
                        }
                    }
                    resolved = Some(entry.get_immutable(&env.store));
                },
                None => {},
            }
        }
        let function = match resolved {
            Some(f) => f,
            None => {
                return Err(Error::UnboundName(owned));
            },
        };
        proof {
            assert(rf == Some(function@));
            assert(value_ok(function@, env.cells().len()));
        }
        let ghost fm = function@;
        match function {
            Value::Function { threaded, parameters, effects, return_type, closure, body } => {
                let ghost pm = param_models_of(parameters@);
                let ghost store0 = env.cells();
                let ghost closure0 = closure@;
                let mut scope = closure;
                let mut pass_by_ref = false;
                let m = if parameters.len() < arguments.len() {
                    parameters.len()
                } else {
                    arguments.len()
                };
                let ghost m_spec = vstd::math::min(pm.len() as int, am.len() as int);
                let mut i: usize = 0;
                while i < m
                    invariant
                        env.wf(),
                        env == old(env),
                        rf == resolve_function(
                            env.functions(),
                            env.instances(),
                            env.defaults(),
                            local_variables@,
                            env.cells(),
                            name@,
                            am,
                        ),
                        rf == Some(fm),
                        fm matches ValueModel::Function {
                            threaded: t0,
                            parameters: pm0,
                            effects: e0,
                            return_type: rt0,
                            closure: c0,
                            body: b0,
                        } && t0 == threaded && pm0 == pm && c0 == closure0 && b0 == body@ && rt0
                            == return_type@,
                        owned@ == name@,
                        am == value_models_of(arguments@),
                        am.len() == arguments@.len(),
                        forall|j: int| 0 <= j < am.len() ==> #[trigger] am[j] == arguments@[j]@,
                        forall|j: int|
                            0 <= j < am.len() ==> value_ok(#[trigger] am[j], store0.len()),
                        forall|j: int|
                            0 <= j < first_mismatch(pm, am, store0, 0, m_spec) ==> (if param_is_ref(
                                (#[trigger] pm[j]).1,
                            ) {
                                am[j] is Ref || duplicable(am[j])
                            } else {
                                duplicable(snapshot_of(am[j], store0))
                            }),
                        pm == param_models_of(parameters@),
                        pm.len() == parameters@.len(),
                        store0 == env.cells(),
                        m_spec == m,
                        m_spec == vstd::math::min(pm.len() as int, am.len() as int),
                        m <= parameters@.len(),
                        m <= arguments@.len(),
                        i <= m,
                        forall|j: int| 0 <= j < i ==> arg_ok((#[trigger] pm[j]).1, am[j], store0),
                        pass_by_ref == (exists|j: int|
                            0 <= j < i && param_is_ref((#[trigger] pm[j]).1)),
                        scope.wf(),
                        locals_ok(scope@, store0.len()),
                        forall|k: Seq<char>|
                            assoc_find(scope@, k) == bind_upto(
                                closure0,
                                pm,
                                am,
                                store0,
                                i as int,
                                k,
                            ),
                    decreases m - i,
                {
                    let declared = crate::types::TypeUtils::get_type(&parameters[i].1);
                    let arg_type = arguments[i].get_type(&env.store);
                    if !declared.equal(&arg_type) {
                        proof {
                            assert(pm[i as int] == (
                                parameters@[i as int].0@,
                                crate::values::opt_model_of(parameters@[i as int].1),
                            ));
                            assert(declared@ == crate::values::opt_type_model(pm[i as int].1));
                            assert(arg_type@ == type_of(am[i as int], store0));
                            assert(!arg_ok(pm[i as int].1, am[i as int], store0));
                            lemma_first_mismatch_from(pm, am, store0, i as int, m_spec);
                            assert(first_mismatch(pm, am, store0, 0, m_spec) == i as int);
                        }
                        return Err(
                            Error::TypeMismatch {
                                function: Some(owned),
                                expected: declared,
                                actual: arg_type,
                            },
                        );
                    }
                    proof {
                        lemma_first_mismatch_from(pm, am, store0, i as int + 1, m_spec);
                        lemma_first_mismatch_bounds(pm, am, store0, i as int + 1, m_spec);
                    }
                    let ghost scope_before = scope@;
                    let bound: Value;
                    if parameters[i].1.is_ref() {
                        pass_by_ref = true;
                        bound = arguments[i].dup();
                    } else {
                        bound = arguments[i].get_immutable(&env.store);
                    }
                    proof {
                        assert(bound@ == bind_val(pm[i as int].1, am[i as int], store0));
                        if !param_is_ref(pm[i as int].1) && am[i as int] is Ref {
                            match am[i as int] {
                                ValueModel::Ref(slot) => {
                                    crate::values::lemma_ref_free_val_wf(
                                        store0[slot as int],
                                        store0.len(),
                                    );
                                },
                                _ => {},
                            }
                        }
                        assert(value_ok(bound@, store0.len()));
                    }
                    scope.insert(parameters[i].0.clone(), bound);
                    proof {
                        lemma_locals_ok_insert(
                            scope_before,
                            scope@,
                            parameters@[i as int].0@,
                            bind_val(pm[i as int].1, am[i as int], store0),
                            store0.len(),
                        );
                        assert forall|k: Seq<char>|
                            assoc_find(scope@, k) == bind_upto(
                                closure0,
                                pm,
                                am,
                                store0,
                                i as int + 1,
                                k,
                            ) by {
                            if k != parameters@[i as int].0@ {
                                assert(assoc_find(scope@, k) == assoc_find(scope_before, k));
                            }
                        }
                    }
                    i += 1;
                }
                proof {
                    lemma_first_mismatch_from(pm, am, store0, m_spec, m_spec);
                }
                if threaded {
                    if pass_by_ref {
                        return Err(Error::ReferenceInThreadedCall);
                    }
                    let interpreter = self.new_for_thread();
                    let handle = env.next_promise;
                    env.next_promise = handle + 1;
                    let promise = Value::create_promise(handle, *return_type);
                    Ok(Invocation::Spawned { interpreter, scope, body, promise })
                } else {
                    Ok(Invocation::Direct { scope, body })
                }
            },
            _ => Err(Error::InvalidCall(owned)),
        }
    }
}

} // verus!
