//! Variables: an optional declared type paired with a value cell.
//!
//! A variable is mutable exactly when its cell holds a reference value;
//! writing through the cell is visible to every holder of the same cell.
//! Reassignment is type-stable: the new value must unify with the declared
//! type (an absent declared type reads as `Any`).

use vstd::prelude::*;

verus! {

use crate::errors::{Error, ErrorModel};
use crate::types::{type_equal, Type, TypeModel, TypeUtils};
use crate::values::{
    duplicable,
    opt_model_of,
    ref_free,
    scopes_wf,
    snapshot_of,
    type_of,
    val_wf,
    Store,
    Value,
    ValueModel,
};

/// The declared type of a variable as a type model: an absent declared
/// type reads as the wildcard `Any`.
pub open spec fn declared_type_model(d: Option<TypeModel>) -> TypeModel {
    match d {
        Some(t) => t,
        None => TypeModel::Single("Any"@),
    }
}

/// The mathematical model of a [`Variable`].
#[verifier::ext_equal]
pub struct VariableModel {
    pub decl: Option<TypeModel>,
    pub val: Option<ValueModel>,
}

/// A named binding: an optional declared type and a value cell.
#[derive(Debug, PartialEq)]
pub struct Variable {
    the_type: Option<Type>,
    value: Option<Value>,
}

impl Variable {
    /// The declared type of this variable, if any.
    pub closed spec fn decl(&self) -> Option<TypeModel> {
        opt_model_of(self.the_type)
    }

    /// The value held by this variable, if any.
    pub closed spec fn val(&self) -> Option<ValueModel> {
        match self.value {
            Some(v) => Some(v@),
            None => None,
        }
    }

    /// The mathematical model of this variable.
    pub open spec fn model(&self) -> VariableModel {
        VariableModel { decl: self.decl(), val: self.val() }
    }

    /// Whether every reference held by this variable points into a store
    /// of `n` slots.
    pub open spec fn wf(&self, n: nat) -> bool {
        match self.val() {
            Some(m) => val_wf(m, n),
            None => true,
        }
    }

    /// A variable bound to `value`, with the value's own type as the
    /// declared type.
    pub fn new(value: Value, store: &Store) -> (r: Variable)
        requires
            store.wf(),
            val_wf(value@, store@.len()),
        ensures
            r.decl() == Some(type_of(value@, store@)),
            r.val() == Some(value@),
    {
        let t = value.get_type(store);
        Variable { the_type: Some(t), value: Some(value) }
    }

    /// A declared but still unbound variable.
    pub fn new_declared(the_type: Option<Type>) -> (r: Variable)
        ensures
            r.decl() == opt_model_of(the_type),
            r.val() is None,
    {
        Variable { the_type, value: None }
    }

    /// Whether this variable's cell is mutable: exactly when it holds a
    /// reference value.
    pub fn is_mutable(&self) -> (r: bool)
        ensures
            r == (self.val() matches Some(v) && v is Ref),
    {
        match &self.value {
            Some(value) => value.is_mutable(),
            None => false,
        }
    }

    /// Reassigns this variable to `r_value`.  Fails with `TypeMismatch`
    /// when the value's type does not unify with the declared type, and
    /// with `ImmutableAssignment` when the cell is not mutable.  On
    /// success the cell's contents change in place: every holder of the
    /// same cell sees the update.
    pub fn assign_value(&mut self, store: &mut Store, r_value: Value) -> (r: Result<(), Error>)
        requires
            old(store).wf(),
            old(self).wf(old(store)@.len()),
            val_wf(r_value@, old(store)@.len()),
            scopes_wf(r_value@),
            (old(self).val() matches Some(v) && v is Ref) ==> ref_free(r_value@),
        ensures
            final(self).decl() == old(self).decl(),
            final(store).wf(),
            final(self).wf(final(store)@.len()),
            !type_equal(
                declared_type_model(old(self).decl()),
                type_of(r_value@, old(store)@),
            ) ==> (r matches Err(e) && e@ == ErrorModel::TypeMismatch {
                function: None,
                expected: declared_type_model(old(self).decl()),
                actual: type_of(r_value@, old(store)@),
            } && final(self).val() == old(self).val() && final(store)@ == old(store)@),
            type_equal(declared_type_model(old(self).decl()), type_of(r_value@, old(store)@))
                ==> {
                &&& old(self).val() matches Some(ValueModel::Ref(i)) ==> (r is Ok && final(self).val() == old(self).val() && final(store)@ == old(store)@.update(
                    i as int,
                    r_value@,
                ))
                &&& (old(self).val() matches Some(v) && !(v is Ref)) ==> (r matches Err(e) && e@
                    == ErrorModel::ImmutableAssignment && final(self).val() == old(self).val()
                    && final(store)@ == old(store)@)
                &&& old(self).val() is None ==> (r is Ok && final(self).val() == Some(r_value@)
                    && final(store)@ == old(store)@)
            },
    {
        let declared = TypeUtils::get_type(&self.the_type);
        let actual = r_value.get_type(store);
        if !declared.equal(&actual) {
            return Err(
                Error::TypeMismatch { function: None, expected: declared, actual: actual },
            );
        }
        if self.value.is_none() {
            self.value = Some(r_value);
            return Ok(());
        }
        match &self.value {
            Some(value) => {
                if value.is_mutable() {
                    value.set_value(store, r_value);
                    Ok(())
                } else {
                    Err(Error::ImmutableAssignment)
                }
            },
            None => {
                proof {
                    assert(false);
                }
                Ok(())
            },
        }
    }

    /// Sets this variable's value: the bind is unconditional.  An unbound
    /// variable gets a fresh mutable cell; a mutable cell is written
    /// through; a bound plain value is replaced.  Fails with
    /// `TypeMismatch` when the value's type does not unify with the
    /// declared type.
    pub fn set_value(&mut self, store: &mut Store, r_value: Value) -> (r: Result<(), Error>)
        requires
            old(store).wf(),
            old(self).wf(old(store)@.len()),
            ref_free(r_value@),
            scopes_wf(r_value@),
        ensures
            final(self).decl() == old(self).decl(),
            final(store).wf(),
            final(self).wf(final(store)@.len()),
            !type_equal(
                declared_type_model(old(self).decl()),
                type_of(r_value@, old(store)@),
            ) ==> (r matches Err(e) && e@ == ErrorModel::TypeMismatch {
                function: None,
                expected: declared_type_model(old(self).decl()),
                actual: type_of(r_value@, old(store)@),
            } && final(self).val() == old(self).val() && final(store)@ == old(store)@),
            type_equal(declared_type_model(old(self).decl()), type_of(r_value@, old(store)@))
                ==> {
                &&& old(self).val() matches Some(ValueModel::Ref(i)) ==> (r is Ok && final(self).val() == old(self).val() && final(store)@ == old(store)@.update(
                    i as int,
                    r_value@,
                ))
                &&& (old(self).val() matches Some(v) && !(v is Ref)) ==> (r is Ok && final(self).val() == Some(r_value@) && final(store)@ == old(store)@)
                &&& old(self).val() is None ==> (r is Ok && final(self).val() == Some(
                    ValueModel::Ref(old(store)@.len() as usize),
                ) && final(store)@ == old(store)@.push(r_value@))
            },
    {
        let declared = TypeUtils::get_type(&self.the_type);
        proof {
            crate::values::lemma_ref_free_val_wf(r_value@, old(store)@.len());
        }
        let actual = r_value.get_type(store);
        if !declared.equal(&actual) {
            return Err(
                Error::TypeMismatch { function: None, expected: declared, actual: actual },
            );
        }
        if self.value.is_none() {
            let cell = r_value.new_ref(store);
            self.value = Some(cell);
            return Ok(());
        }
        let mutable = match &self.value {
            Some(value) => value.is_mutable(),
            None => false,
        };
        if mutable {
            match &self.value {
                Some(value) => value.set_value(store, r_value),
                None => {
                    proof {
                        assert(false);
                    }
                },
            }
        } else {
            self.value = Some(r_value);
        }
        Ok(())
    }

    /// A detached snapshot of this variable's value, safe to hand to
    /// another scope without aliasing.
    pub fn get_immutable(&self, store: &Store) -> (r: Value)
        requires
            store.wf(),
            self.val() is Some,
            self.wf(store@.len()),
            duplicable(snapshot_of(self.val()->0, store@)),
        ensures
            r@ == snapshot_of(self.val()->0, store@),
    {
        match &self.value {
            Some(value) => value.get_immutable(store),
            None => {
                proof {
                    assert(false);
                }
                Value::Int(0)
            },
        }
    }

    /// The aliasing handle of this variable's cell.  Fails with
    /// `ImmutableAssignment` when the cell is not mutable, so that
    /// immutable data never hands out write access.
    pub fn get_mutable(&self) -> (r: Result<Value, Error>)
        requires
            self.val() is Some,
        ensures
            (self.val() matches Some(v) && v is Ref) ==> (r matches Ok(rv) && rv@ == self.val()
                ->0),
            (self.val() matches Some(v) && !(v is Ref)) ==> (r matches Err(e) && e@
                == ErrorModel::ImmutableAssignment),
    {
        match &self.value {
            Some(value) => {
                if value.is_mutable() {
                    Ok(value.get_mutable())
                } else {
                    Err(Error::ImmutableAssignment)
                }
            },
            None => {
                proof {
                    assert(false);
                }
                Err(Error::ImmutableAssignment)
            },
        }
    }

    /// A structural copy.  A copied cell aliases the same slot.
    pub(crate) fn dup(&self) -> (r: Variable)
        ensures
            r.decl() == self.decl(),
            r.val() == self.val(),
    {
        let t = match &self.the_type {
            Some(t) => Some(t.dup()),
            None => None,
        };
        let v = match &self.value {
            Some(v) => Some(v.dup()),
            None => None,
        };
        Variable { the_type: t, value: v }
    }
}

} // verus!
