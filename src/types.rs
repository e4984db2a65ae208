//! The nominal type model: a named type, whether it admits null, and the
//! names of the types it may stand for.
use vstd::prelude::*;

verus! {

/// The view of a `DataType`.
pub ghost struct SpecDataType {
    pub name: Seq<char>,
    pub nullable: bool,
    pub inherits: Set<Seq<char>>,
}

/// Whether two types are interchangeable: the same name, or one names the
/// other among the types it inherits. One hop only, and symmetric.
pub open spec fn compatible(a: SpecDataType, b: SpecDataType) -> bool {
    a.name == b.name || a.inherits.contains(b.name) || b.inherits.contains(a.name)
}

/// The names held by a sequence of strings.
pub open spec fn names_of(v: Seq<String>) -> Set<Seq<char>> {
    v.map_values(|s: String| s@).to_set()
}

/// A named type. Its name is never empty.
#[derive(Debug)]
pub struct DataType {
    name: String,
    nullable: bool,
    inherits: Vec<String>,
}

impl View for DataType {
    type V = SpecDataType;

    closed spec fn view(&self) -> SpecDataType {
        SpecDataType { name: self.name@, nullable: self.nullable, inherits: names_of(self.inherits@) }
    }
}

impl Clone for DataType {
    fn clone(&self) -> (r: DataType)
        ensures
            r@ == self@,
    {
        proof {
            use_type_invariant(self);
        }
        let inherits = self.inherits.clone();
        assert(inherits@.map_values(|s: String| s@) =~= self.inherits@.map_values(|s: String| s@));
        DataType { name: self.name.clone(), nullable: self.nullable, inherits }
    }
}

impl DataType {
    #[verifier::type_invariant]
    spec fn name_is_set(self) -> bool {
        self.name@.len() > 0
    }

    /// The type `name`, nullable or not, that inherits from the types `inherits` names.
    pub fn new(name: String, nullable: bool, inherits: Vec<String>) -> (r: DataType)
        requires
            name@.len() > 0,
        ensures
            r@ == (SpecDataType { name: name@, nullable, inherits: names_of(inherits@) }),
    {
        DataType { name, nullable, inherits }
    }

    pub fn name(&self) -> (r: &String)
        ensures
            r@ == self@.name,
            r@.len() > 0,
    {
        proof {
            use_type_invariant(self);
        }
        &self.name
    }

    pub fn is_nullable(&self) -> (r: bool)
        ensures
            r == self@.nullable,
    {
        self.nullable
    }

    /// Whether this type and `other` are interchangeable.
    pub fn is_compatible(&self, other: &DataType) -> (r: bool)
        ensures
            r == compatible(self@, other@),
    {
        if self.name == other.name {
            return true;
        }
        contains_name(&self.inherits, &other.name) || contains_name(&other.inherits, &self.name)
    }
}

/// Whether `v` holds a string equal to `name`.
fn contains_name(v: &Vec<String>, name: &String) -> (r: bool)
    ensures
        r == names_of(v@).contains(name@),
{
    let mut i: usize = 0;
    while i < v.len()
        invariant
            i <= v.len(),
            forall|j: int| 0 <= j < i ==> v@[j]@ != name@,
        decreases v.len() - i,
    {
        if v[i] == *name {
            assert(v@.map_values(|s: String| s@)[i as int] == name@);
            return true;
        }
        i = i + 1;
    }
    assert(!v@.map_values(|s: String| s@).contains(name@));
    false
}

/// Compatibility holds of a type and itself, and either way round.
pub proof fn lemma_compatible_reflexive_symmetric(a: SpecDataType, b: SpecDataType)
    ensures
        compatible(a, a),
        compatible(a, b) == compatible(b, a),
{
}

} // verus!
