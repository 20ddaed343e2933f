//! The argument store of one dispatch: the values bound along the matched
//! path, looked up by name without regard to ASCII case.

use vstd::prelude::*;

use crate::text::{eq_ci, eq_ignore_ascii_case};

verus! {

/// At most this many values are bound in one dispatch.
pub const MAX_BINDINGS: usize = 64;

/// A parsed argument value. Floating-point arguments keep the JSON number
/// text that was accepted, to be read as `f32` or `f64` by the handler.
#[derive(Debug, Clone, PartialEq, Eq)]
pub enum Value {
    Bool(bool),
    Int(i32),
    Long(i64),
    Float(String),
    Double(String),
    Text(String),
}

pub enum ValueView {
    Bool(bool),
    Int(i32),
    Long(i64),
    Float(Seq<char>),
    Double(Seq<char>),
    Text(Seq<char>),
}

impl View for Value {
    type V = ValueView;

    open spec fn view(&self) -> ValueView {
        match self {
            Value::Bool(b) => ValueView::Bool(*b),
            Value::Int(n) => ValueView::Int(*n),
            Value::Long(n) => ValueView::Long(*n),
            Value::Float(t) => ValueView::Float(t@),
            Value::Double(t) => ValueView::Double(t@),
            Value::Text(t) => ValueView::Text(t@),
        }
    }
}

/// One named value.
#[derive(Debug, Clone, PartialEq, Eq)]
pub struct Binding {
    pub name: String,
    pub value: Value,
}

pub struct BindingView {
    pub name: Seq<char>,
    pub value: ValueView,
}

impl View for Binding {
    type V = BindingView;

    open spec fn view(&self) -> BindingView {
        BindingView { name: self.name@, value: self.value@ }
    }
}

/// `heapless::Vec`, a vector of fixed capacity, seen from here only through
/// `held` and the wrappers below.
#[verifier::external_type_specification]
#[verifier::external_body]
#[verifier::reject_recursive_types(T)]
pub struct ExHeaplessVec<T, const N: usize>(heapless::Vec<T, N>);

/// What a bounded vector of bindings holds, in order.
pub uninterp spec fn held(v: heapless::Vec<Binding, 64>) -> Seq<Binding>;

/// Relies on `heapless::Vec::new`: an empty vector.
#[verifier::external_body]
fn store_new() -> (r: heapless::Vec<Binding, 64>)
    ensures
        held(r) == Seq::<Binding>::empty(),
{
    heapless::Vec::new()
}

/// Relies on `heapless::Vec::push`: below capacity the item is appended;
/// at capacity it is handed back and the vector is unchanged.
#[verifier::external_body]
fn store_push(v: &mut heapless::Vec<Binding, 64>, b: Binding) -> (r: bool)
    ensures
        held(*old(v)).len() < 64 ==> r && held(*final(v)) == held(*old(v)).push(b),
        held(*old(v)).len() >= 64 ==> !r && held(*final(v)) == held(*old(v)),
{
    v.push(b).is_ok()
}

/// Relies on the length of the slice that a `heapless::Vec` derefs to,
/// which never exceeds the capacity.
#[verifier::external_body]
fn store_len(v: &heapless::Vec<Binding, 64>) -> (r: usize)
    ensures
        r == held(*v).len(),
        r <= 64,
{
    v.len()
}

/// Relies on indexing the slice that a `heapless::Vec` derefs to.
#[verifier::external_body]
fn store_at(v: &heapless::Vec<Binding, 64>, i: usize) -> (r: &Binding)
    requires
        i < held(*v).len(),
    ensures
        *r == held(*v)[i as int],
{
    &v[i]
}

/// Why a lookup in the argument store failed.
#[derive(Debug, Clone, PartialEq, Eq)]
pub enum CommandContextError {
    /// No argument of that name was bound.
    ArgumentNotFound { name: String },
    /// The argument is bound to a value of another type.
    TypeMismatch { name: String },
    /// The store already holds `MAX_BINDINGS` values.
    CapacityExceeded,
}

/// The index of the first binding whose name equals `name` up to ASCII
/// case, looking from index `i` on.
pub open spec fn find_from(bs: Seq<BindingView>, name: Seq<char>, i: int) -> Option<int>
    decreases bs.len() - i,
{
    if i < 0 || i >= bs.len() {
        None
    } else if eq_ci(bs[i].name, name) {
        Some(i)
    } else {
        find_from(bs, name, i + 1)
    }
}

/// The first binding named `name`, up to ASCII case.
pub open spec fn find_binding(bs: Seq<BindingView>, name: Seq<char>) -> Option<int> {
    find_from(bs, name, 0)
}

proof fn lemma_find_from_bounds(bs: Seq<BindingView>, name: Seq<char>, i: int)
    ensures
        find_from(bs, name, i) matches Some(j) ==> i <= j < bs.len() && eq_ci(bs[j].name, name),
    decreases bs.len() - i,
{
    if 0 <= i < bs.len() && !eq_ci(bs[i].name, name) {
        lemma_find_from_bounds(bs, name, i + 1);
    }
}

/// The values bound during one dispatch, in the order they were bound.
#[derive(Debug)]
pub struct CommandContext {
    bindings: heapless::Vec<Binding, 64>,
}

impl View for CommandContext {
    type V = Seq<BindingView>;

    closed spec fn view(&self) -> Seq<BindingView> {
        held(self.bindings).map_values(|b: Binding| b@)
    }
}

/// The value that `get` finds for `name`.
pub open spec fn lookup(bs: Seq<BindingView>, name: Seq<char>) -> Option<ValueView> {
    match find_binding(bs, name) {
        Some(i) => Some(bs[i].value),
        None => None,
    }
}

impl CommandContext {
    /// An empty store.
    pub fn new() -> (r: Self)
        ensures
            r@ == Seq::<BindingView>::empty(),
    {
        let r = CommandContext { bindings: store_new() };
        assert(r@ =~= Seq::<BindingView>::empty());
        r
    }

    /// The number of values bound.
    pub fn len(&self) -> (r: usize)
        ensures
            r == self@.len(),
            r <= MAX_BINDINGS,
    {
        store_len(&self.bindings)
    }

    /// The binding at position `i`, in binding order.
    pub fn binding(&self, i: usize) -> (r: &Binding)
        requires
            i < self@.len(),
        ensures
            r@ == self@[i as int],
    {
        store_at(&self.bindings, i)
    }

    /// Binds `value` to `name` after the values already bound. Fails with
    /// `CapacityExceeded`, leaving the store as it was, once it holds
    /// `MAX_BINDINGS` values.
    pub fn push(&mut self, name: String, value: Value) -> (r: Result<(), CommandContextError>)
        ensures
            old(self)@.len() < MAX_BINDINGS ==> r is Ok && final(self)@ == old(self)@.push(
                BindingView { name: name@, value: value@ },
            ),
            old(self)@.len() >= MAX_BINDINGS ==> (r matches Err(
                CommandContextError::CapacityExceeded,
            ) && final(self)@ == old(self)@),
    {
        let b = Binding { name, value };
        let ghost before = held(self.bindings);
        let ok = store_push(&mut self.bindings, b);
        proof {
            if before.len() < 64 {
                assert(held(self.bindings).map_values(|b: Binding| b@) =~= before.map_values(
                    |b: Binding| b@,
                ).push(b@));
            }
        }
        if ok {
            Ok(())
        } else {
            Err(CommandContextError::CapacityExceeded)
        }
    }

    /// The position of the first value bound under `name`, comparing names
    /// without regard to ASCII case.
    pub fn position(&self, name: &str) -> (r: Option<usize>)
        ensures
            r matches Some(i) ==> find_binding(self@, name@) == Some(i as int),
            r is None ==> find_binding(self@, name@) is None,
    {
        let n = store_len(&self.bindings);
        let mut i: usize = 0;
        while i < n
            invariant
                n == self@.len(),
                i <= n,
                find_binding(self@, name@) == find_from(self@, name@, i as int),
            decreases n - i,
        {
            let b = store_at(&self.bindings, i);
            if eq_ignore_ascii_case(b.name.as_str(), name) {
                return Some(i);
            }
            i += 1;
        }
        None
    }

    /// The value of the first binding named `name` (without regard to ASCII
    /// case), or `ArgumentNotFound`.
    pub fn get(&self, name: &str) -> (r: Result<&Value, CommandContextError>)
        ensures
            lookup(self@, name@) matches Some(v) ==> (r matches Ok(x) && x@ == v),
            lookup(self@, name@) is None ==> (r matches Err(
                CommandContextError::ArgumentNotFound { name: n },
            ) && n@ == name@),
    {
        match self.position(name) {
            Some(i) => {
                proof {
                    lemma_find_from_bounds(self@, name@, 0);
                }
                Ok(&store_at(&self.bindings, i).value)
            },
            None => Err(CommandContextError::ArgumentNotFound { name: name.to_string() }),
        }
    }

    /// The value bound to `name` as a boolean: `ArgumentNotFound` where no
    /// value has that name, `TypeMismatch` where it holds another type.
    pub fn get_bool(&self, name: &str) -> (r: Result<bool, CommandContextError>)
        ensures
            lookup(self@, name@) matches Some(ValueView::Bool(x)) ==> r == Ok::<bool, CommandContextError>(x),
            lookup(self@, name@) matches Some(v) && !(v is Bool) ==> (r matches Err(
                CommandContextError::TypeMismatch { name: n },
            ) && n@ == name@),
            lookup(self@, name@) is None ==> (r matches Err(
                CommandContextError::ArgumentNotFound { name: n },
            ) && n@ == name@),
    {
        match self.get(name) {
            Ok(Value::Bool(b)) => Ok(*b),
            Ok(_) => Err(CommandContextError::TypeMismatch { name: name.to_string() }),
            Err(e) => Err(e),
        }
    }

    /// The value bound to `name` as an `i32` (an `Integer` argument): `ArgumentNotFound` where no
    /// value has that name, `TypeMismatch` where it holds another type.
    pub fn get_int(&self, name: &str) -> (r: Result<i32, CommandContextError>)
        ensures
            lookup(self@, name@) matches Some(ValueView::Int(x)) ==> r == Ok::<i32, CommandContextError>(x),
            lookup(self@, name@) matches Some(v) && !(v is Int) ==> (r matches Err(
                CommandContextError::TypeMismatch { name: n },
            ) && n@ == name@),
            lookup(self@, name@) is None ==> (r matches Err(
                CommandContextError::ArgumentNotFound { name: n },
            ) && n@ == name@),
    {
        match self.get(name) {
            Ok(Value::Int(n)) => Ok(*n),
            Ok(_) => Err(CommandContextError::TypeMismatch { name: name.to_string() }),
            Err(e) => Err(e),
        }
    }

    /// The value bound to `name` as an `i64` (a `Long` argument): `ArgumentNotFound` where no
    /// value has that name, `TypeMismatch` where it holds another type.
    pub fn get_long(&self, name: &str) -> (r: Result<i64, CommandContextError>)
        ensures
            lookup(self@, name@) matches Some(ValueView::Long(x)) ==> r == Ok::<i64, CommandContextError>(x),
            lookup(self@, name@) matches Some(v) && !(v is Long) ==> (r matches Err(
                CommandContextError::TypeMismatch { name: n },
            ) && n@ == name@),
            lookup(self@, name@) is None ==> (r matches Err(
                CommandContextError::ArgumentNotFound { name: n },
            ) && n@ == name@),
    {
        match self.get(name) {
            Ok(Value::Long(n)) => Ok(*n),
            Ok(_) => Err(CommandContextError::TypeMismatch { name: name.to_string() }),
            Err(e) => Err(e),
        }
    }

    /// The value bound to `name` as a string (a `String` argument): `ArgumentNotFound` where no
    /// value has that name, `TypeMismatch` where it holds another type.
    pub fn get_str(&self, name: &str) -> (r: Result<&str, CommandContextError>)
        ensures
            lookup(self@, name@) matches Some(ValueView::Text(x)) ==> (r matches Ok(t) && t@ == x),
            lookup(self@, name@) matches Some(v) && !(v is Text) ==> (r matches Err(
                CommandContextError::TypeMismatch { name: n },
            ) && n@ == name@),
            lookup(self@, name@) is None ==> (r matches Err(
                CommandContextError::ArgumentNotFound { name: n },
            ) && n@ == name@),
    {
        match self.get(name) {
            Ok(Value::Text(t)) => Ok(t.as_str()),
            Ok(_) => Err(CommandContextError::TypeMismatch { name: name.to_string() }),
            Err(e) => Err(e),
        }
    }

    /// The value bound to `name` as the JSON number text of a `Float` argument: `ArgumentNotFound` where no
    /// value has that name, `TypeMismatch` where it holds another type.
    pub fn get_float(&self, name: &str) -> (r: Result<&str, CommandContextError>)
        ensures
            lookup(self@, name@) matches Some(ValueView::Float(x)) ==> (r matches Ok(t) && t@ == x),
            lookup(self@, name@) matches Some(v) && !(v is Float) ==> (r matches Err(
                CommandContextError::TypeMismatch { name: n },
            ) && n@ == name@),
            lookup(self@, name@) is None ==> (r matches Err(
                CommandContextError::ArgumentNotFound { name: n },
            ) && n@ == name@),
    {
        match self.get(name) {
            Ok(Value::Float(t)) => Ok(t.as_str()),
            Ok(_) => Err(CommandContextError::TypeMismatch { name: name.to_string() }),
            Err(e) => Err(e),
        }
    }

    /// The value bound to `name` as the JSON number text of a `Double` argument: `ArgumentNotFound` where no
    /// value has that name, `TypeMismatch` where it holds another type.
    pub fn get_double(&self, name: &str) -> (r: Result<&str, CommandContextError>)
        ensures
            lookup(self@, name@) matches Some(ValueView::Double(x)) ==> (r matches Ok(t) && t@ == x),
            lookup(self@, name@) matches Some(v) && !(v is Double) ==> (r matches Err(
                CommandContextError::TypeMismatch { name: n },
            ) && n@ == name@),
            lookup(self@, name@) is None ==> (r matches Err(
                CommandContextError::ArgumentNotFound { name: n },
            ) && n@ == name@),
    {
        match self.get(name) {
            Ok(Value::Double(t)) => Ok(t.as_str()),
            Ok(_) => Err(CommandContextError::TypeMismatch { name: name.to_string() }),
            Err(e) => Err(e),
        }
    }
}

} // verus!
