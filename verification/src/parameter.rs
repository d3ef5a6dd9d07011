//! Typed parameters and an explicitly constructed parameter registry.
//!
//! The registry is a plain value passed by reference to whoever registers
//! or validates parameters — never ambient shared state — and parameter
//! values form a closed set of tagged variants rather than opaque
//! dynamically-typed boxes.

use vstd::prelude::*;

verus! {

/// The kinds of value a parameter can carry.
#[derive(Clone, Copy, PartialEq, Eq, Structural, Debug)]
pub enum ParameterType {
    NUMBER,
    ENUMERATION,
    BOOLEAN,
    STRING,
}

/// The closed set of parameter values: a number, an enumeration member
/// identified by its code, a flag, or text.
#[derive(Clone, PartialEq, Eq, Debug)]
pub enum ParameterValue {
    Number(i64),
    Enumeration(u64),
    Flag(bool),
    Text(String),
}

/// What a kind of parameter offers: identification, its type, and a
/// validity test for candidate values. Implemented by the parameter models
/// an embedding program registers.
pub trait ParameterModel: Sized {
    /// The model's name, as the registry will key it.
    spec fn spec_name(&self) -> Seq<char>;

    /// Which values the model accepts.
    spec fn spec_valid(&self, value: ParameterValue) -> bool;

    fn get_name(&self) -> (r: String)
        ensures
            r@ == self.spec_name(),
    ;

    fn get_description(&self) -> String;

    fn get_param_type(&self) -> ParameterType;

    fn validate_value(&self, value: &ParameterValue) -> (r: bool)
        ensures
            r == self.spec_valid(*value),
    ;
}

/// A named, identified value of a copyable type.
pub struct Parameter<T> {
    pub name: String,
    pub id: u64,
    pub value: T,
}

impl<T: Copy> Parameter<T> {
    /// A parameter with the given name, identifier and initial value.
    pub fn new(name: String, id: u64, value: T) -> (r: Self)
        ensures
            r.name == name,
            r.id == id,
            r.value == value,
    {
        Parameter { name, id, value }
    }

    /// Replaces the held value; name and identifier stay.
    pub fn set_value(&mut self, value: T)
        ensures
            final(self).value == value,
            final(self).name == old(self).name,
            final(self).id == old(self).id,
    {
        self.value = value;
    }

    /// The held value.
    pub fn get_value(&self) -> (r: T)
        ensures
            r == self.value,
    {
        self.value
    }
}

/// The registry: the known parameter models keyed by name, and the
/// registered parameter values keyed by block identifier.
pub struct ParameterControl<M: ParameterModel> {
    pub parameter_model_table: Vec<(String, M)>,
    pub parameter_list: Vec<(u64, ParameterValue)>,
}

/// The index of the first model with the given name from position i on,
/// or -1 when there is none.
pub open spec fn find_model<M: ParameterModel>(
    s: Seq<(String, M)>,
    name: Seq<char>,
    i: int,
) -> int
    decreases s.len() - i,
{
    if i < 0 || i >= s.len() {
        -1
    } else if s[i].0@ == name {
        i
    } else {
        find_model(s, name, i + 1)
    }
}

/// The index of the first entry with the given block identifier from
/// position i on, or -1 when there is none.
pub open spec fn find_entry(s: Seq<(u64, ParameterValue)>, id: u64, i: int) -> int
    decreases s.len() - i,
{
    if i < 0 || i >= s.len() {
        -1
    } else if s[i].0 == id {
        i
    } else {
        find_entry(s, id, i + 1)
    }
}

/// Where some entry from position i on carries the name, the search finds
/// one.
pub proof fn lemma_find_model_finds<M: ParameterModel>(s: Seq<(String, M)>, name: Seq<char>, i: int)
    requires
        0 <= i,
        exists|j: int| i <= j < s.len() && #[trigger] s[j].0@ == name,
    ensures
        find_model(s, name, i) >= 0,
    decreases s.len() - i,
{
    let j = choose|j: int| i <= j < s.len() && #[trigger] s[j].0@ == name;
    if s[i].0@ != name {
        assert(j != i);
        lemma_find_model_finds(s, name, i + 1);
    }
}

/// A nonnegative search result indexes an entry carrying the name.
pub proof fn lemma_find_model_found<M: ParameterModel>(s: Seq<(String, M)>, name: Seq<char>, i: int)
    requires
        0 <= i,
    ensures
        find_model(s, name, i) >= 0 ==> i <= find_model(s, name, i) < s.len() && s[find_model(
            s,
            name,
            i,
        )].0@ == name,
    decreases s.len() - i,
{
    if i < s.len() && s[i].0@ != name {
        lemma_find_model_found(s, name, i + 1);
    }
}

impl<M: ParameterModel> ParameterControl<M> {
    /// A fresh, empty registry, to be passed by reference to each component
    /// that registers or validates parameters.
    pub fn get() -> (r: Self)
        ensures
            r.parameter_model_table@.len() == 0,
            r.parameter_list@.len() == 0,
    {
        ParameterControl { parameter_model_table: Vec::new(), parameter_list: Vec::new() }
    }
}

/// Registers a parameter model under its own name, replacing an earlier
/// model of the same name; a new name is appended.
pub fn add_parameter_model<M: ParameterModel>(control: &mut ParameterControl<M>, parameter_model: M)
    ensures
        final(control).parameter_list == old(control).parameter_list,
        ({
            let t0 = old(control).parameter_model_table@;
            let t1 = final(control).parameter_model_table@;
            let e = find_model(t0, parameter_model.spec_name(), 0);
            if e >= 0 {
                &&& t1.len() == t0.len()
                &&& (forall|i: int| 0 <= i < t0.len() && i != e ==> #[trigger] t1[i] == t0[i])
                &&& t1[e].0@ == parameter_model.spec_name()
                &&& t1[e].1 == parameter_model
            } else {
                &&& t1.len() == t0.len() + 1
                &&& (forall|i: int| 0 <= i < t0.len() ==> #[trigger] t1[i] == t0[i])
                &&& t1[t0.len() as int].0@ == parameter_model.spec_name()
                &&& t1[t0.len() as int].1 == parameter_model
            }
        }),
{
    let name = parameter_model.get_name();
    let n = control.parameter_model_table.len();
    let mut i: usize = 0;
    let mut found: usize = 0;
    let mut have_found = false;
    while i < n && !have_found
        invariant
            i <= n,
            n == control.parameter_model_table@.len(),
            name@ == parameter_model.spec_name(),
            !have_found ==> forall|j: int|
                0 <= j < i ==> #[trigger] control.parameter_model_table@[j].0@ != name@,
            !have_found ==> find_model(control.parameter_model_table@, name@, 0) == find_model(
                control.parameter_model_table@,
                name@,
                i as int,
            ),
            have_found ==> found < n && find_model(control.parameter_model_table@, name@, 0)
                == found as int,
        decreases n - i,
    {
        let entry = &control.parameter_model_table[i];
        if entry.0.eq(&name) {
            found = i;
            have_found = true;
        } else {
            proof {
                assert(find_model(control.parameter_model_table@, name@, i as int) == find_model(
                    control.parameter_model_table@,
                    name@,
                    i as int + 1,
                ));
            }
        }
        i = i + 1;
    }
    if have_found {
        control.parameter_model_table.set(found, (name, parameter_model));
    } else {
        control.parameter_model_table.push((name, parameter_model));
    }
}

/// Validates a value against the first model with the given name and, when
/// it is accepted, stores it under the block identifier (replacing any
/// earlier value there). Returns whether the value was accepted.
pub fn add_parameter<M: ParameterModel>(
    control: &mut ParameterControl<M>,
    parameter_name: String,
    block_id: u64,
    value: ParameterValue,
) -> (r: bool)
    requires
        find_model(old(control).parameter_model_table@, parameter_name@, 0) >= 0,
    ensures
        final(control).parameter_model_table == old(control).parameter_model_table,
        ({
            let idx = find_model(old(control).parameter_model_table@, parameter_name@, 0);
            r == old(control).parameter_model_table@[idx].1.spec_valid(value)
        }),
        !r ==> final(control).parameter_list == old(control).parameter_list,
        r ==> ({
            let e = find_entry(old(control).parameter_list@, block_id, 0);
            if e >= 0 {
                final(control).parameter_list@ == old(control).parameter_list@.update(
                    e,
                    (block_id, value),
                )
            } else {
                final(control).parameter_list@ == old(control).parameter_list@.push(
                    (block_id, value),
                )
            }
        }),
{
    let mut i: usize = 0;
    let n = control.parameter_model_table.len();
    let mut found: usize = 0;
    let mut have_found = false;
    while i < n && !have_found
        invariant
            i <= n,
            n == control.parameter_model_table@.len(),
            !have_found ==> forall|j: int|
                0 <= j < i ==> #[trigger] control.parameter_model_table@[j].0@
                    != parameter_name@,
            !have_found ==> find_model(control.parameter_model_table@, parameter_name@, 0)
                == find_model(control.parameter_model_table@, parameter_name@, i as int),
            have_found ==> found < n && find_model(
                control.parameter_model_table@,
                parameter_name@,
                0,
            ) == found as int,
        decreases n - i,
    {
        let entry = &control.parameter_model_table[i];
        if entry.0.eq(&parameter_name) {
            found = i;
            have_found = true;
        } else {
            proof {
                assert(find_model(control.parameter_model_table@, parameter_name@, i as int)
                    == find_model(control.parameter_model_table@, parameter_name@, i as int + 1));
            }
        }
        i = i + 1;
    }
    proof {
        assert(have_found);
    }
    let valid = control.parameter_model_table[found].1.validate_value(&value);
    if valid {
        let m = control.parameter_list.len();
        let mut j: usize = 0;
        let mut at: usize = 0;
        let mut have_entry = false;
        while j < m && !have_entry
            invariant
                j <= m,
                m == control.parameter_list@.len(),
                !have_entry ==> forall|jj: int|
                    0 <= jj < j ==> #[trigger] control.parameter_list@[jj].0 != block_id,
                !have_entry ==> find_entry(control.parameter_list@, block_id, 0) == find_entry(
                    control.parameter_list@,
                    block_id,
                    j as int,
                ),
                have_entry ==> at < m && find_entry(control.parameter_list@, block_id, 0)
                    == at as int,
            decreases m - j,
        {
            if control.parameter_list[j].0 == block_id {
                at = j;
                have_entry = true;
            } else {
                proof {
                    assert(find_entry(control.parameter_list@, block_id, j as int) == find_entry(
                        control.parameter_list@,
                        block_id,
                        j as int + 1,
                    ));
                }
            }
            j = j + 1;
        }
        if have_entry {
            control.parameter_list.set(at, (block_id, value));
        } else {
            control.parameter_list.push((block_id, value));
        }
    }
    valid
}

} // verus!
