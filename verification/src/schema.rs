//! Named, typed, nullable fields and positionally indexed schemas.

use vstd::prelude::*;

verus! {

/// Storage class of a column. `Float64` values are carried as IEEE-754 bit
/// patterns and `Timestamp` values as epoch nanoseconds; no kernel computes
/// on either, they only travel through scans and filters.
#[derive(Clone, Copy, PartialEq, Eq, Structural, Debug)]
pub enum DataType {
    Bool,
    Int32,
    Float64,
    Utf8,
    Timestamp,
}

/// A named, typed, nullable column description.
#[derive(Debug, PartialEq)]
pub struct Field {
    pub name: String,
    pub data_type: DataType,
    pub nullable: bool,
}

impl Clone for Field {
    fn clone(&self) -> (r: Self)
        ensures
            r == *self,
    {
        Field { name: self.name.clone(), data_type: self.data_type, nullable: self.nullable }
    }
}

impl DataType {
    /// The printable name of this type.
    pub open spec fn spec_name(self) -> Seq<char> {
        match self {
            DataType::Bool => "Boolean"@,
            DataType::Int32 => "Int32"@,
            DataType::Float64 => "Float64"@,
            DataType::Utf8 => "Utf8"@,
            DataType::Timestamp => "Timestamp"@,
        }
    }

    /// The printable name of this type.
    pub fn name(&self) -> (r: String)
        ensures
            r@ == self.spec_name(),
    {
        match self {
            DataType::Bool => "Boolean".to_owned(),
            DataType::Int32 => "Int32".to_owned(),
            DataType::Float64 => "Float64".to_owned(),
            DataType::Utf8 => "Utf8".to_owned(),
            DataType::Timestamp => "Timestamp".to_owned(),
        }
    }
}

/// Mathematical image of a [`Field`]: the name as a character sequence.
#[verifier::ext_equal]
pub struct SpecField {
    pub name: Seq<char>,
    pub data_type: DataType,
    pub nullable: bool,
}

impl View for Field {
    type V = SpecField;

    open spec fn view(&self) -> SpecField {
        SpecField { name: self.name@, data_type: self.data_type, nullable: self.nullable }
    }
}

/// The views of a sequence of fields.
pub open spec fn fields_view(fs: Seq<Field>) -> Seq<SpecField> {
    fs.map_values(|f: Field| f@)
}

/// An ordered sequence of fields; columns are addressed by position.
#[derive(Debug, PartialEq)]
pub struct Schema {
    pub fields: Vec<Field>,
}

impl Clone for Schema {
    fn clone(&self) -> (r: Self)
        ensures
            r.fields@ == self.fields@,
            r@ == self@,
    {
        let mut fields: Vec<Field> = Vec::new();
        let n = self.fields.len();
        let mut i: usize = 0;
        while i < n
            invariant
                i <= n,
                n == self.fields.len(),
                fields@ == self.fields@.take(i as int),
            decreases n - i,
        {
            fields.push(self.fields[i].clone());
            proof {
                assert(fields@ =~= self.fields@.take(i + 1));
            }
            i = i + 1;
        }
        proof {
            assert(self.fields@.take(n as int) =~= self.fields@);
        }
        Schema { fields }
    }
}

impl View for Schema {
    type V = Seq<SpecField>;

    open spec fn view(&self) -> Seq<SpecField> {
        fields_view(self.fields@)
    }
}

/// The views of a list of column names.
pub open spec fn names_view(v: Seq<String>) -> Seq<Seq<char>> {
    v.map_values(|s: String| s@)
}

/// Position of the first field called `name`, if any.
pub open spec fn spec_field_index(fields: Seq<SpecField>, name: Seq<char>) -> Option<int>
    decreases fields.len(),
{
    if fields.len() == 0 {
        None
    } else if fields[0].name == name {
        Some(0int)
    } else {
        match spec_field_index(fields.drop_first(), name) {
            Some(i) => Some(i + 1),
            None => None,
        }
    }
}

/// The first field called `name`, if any.
pub open spec fn spec_field_lookup(fields: Seq<SpecField>, name: Seq<char>) -> Option<SpecField> {
    match spec_field_index(fields, name) {
        Some(i) => Some(fields[i]),
        None => None,
    }
}

/// The fields whose names occur in `names`, kept in schema order.
pub open spec fn spec_project_fields(fields: Seq<SpecField>, names: Seq<Seq<char>>) -> Seq<
    SpecField,
>
    decreases fields.len(),
{
    if fields.len() == 0 {
        Seq::empty()
    } else {
        let rest = spec_project_fields(fields.drop_last(), names);
        if names.contains(fields.last().name) {
            rest.push(fields.last())
        } else {
            rest
        }
    }
}

/// A resolved index lies in range and its field bears the looked-up name.
pub proof fn lemma_field_index_in_range(fields: Seq<SpecField>, name: Seq<char>)
    ensures
        match spec_field_index(fields, name) {
            Some(i) => 0 <= i < fields.len() && fields[i].name == name,
            None => forall|j: int| 0 <= j < fields.len() ==> fields[j].name != name,
        },
    decreases fields.len(),
{
    if fields.len() > 0 && fields[0].name != name {
        lemma_field_index_in_range(fields.drop_first(), name);
        assert forall|j: int| 1 <= j < fields.len() implies fields[j]
            == fields.drop_first()[j - 1] by {}
    }
}

impl Schema {
    /// Position of the first field called `name`, if any.
    pub fn index_of(&self, name: &String) -> (r: Option<usize>)
        ensures
            match r {
                Some(i) => spec_field_index(self@, name@) == Some(i as int),
                None => spec_field_index(self@, name@) is None,
            },
    {
        let n = self.fields.len();
        let mut i: usize = 0;
        proof {
            assert(self@.skip(0) =~= self@);
        }
        while i < n
            invariant
                i <= n,
                n == self.fields.len(),
                spec_field_index(self@, name@) == match spec_field_index(
                    self@.skip(i as int),
                    name@,
                ) {
                    Some(j) => Some(j + i),
                    None => None::<int>,
                },
            decreases n - i,
        {
            proof {
                assert(self@.skip(i as int)[0] == self@[i as int]);
                assert(self@[i as int] == self.fields@[i as int]@);
                assert(self@.skip(i as int).drop_first() =~= self@.skip(i + 1));
            }
            if self.fields[i].name.eq(name) {
                assert(spec_field_index(self@.skip(i as int), name@) == Some(0int));
                return Some(i);
            }
            i = i + 1;
        }
        assert(self@.skip(n as int) =~= Seq::<SpecField>::empty());
        None
    }

    /// The first field called `name`, cloned, if any.
    pub fn lookup(&self, name: &String) -> (r: Option<Field>)
        ensures
            match r {
                Some(f) => spec_field_lookup(self@, name@) == Some(f@),
                None => spec_field_lookup(self@, name@) is None,
            },
    {
        proof {
            lemma_field_index_in_range(self@, name@);
        }
        match self.index_of(name) {
            Some(i) => {
                let f = self.fields[i].clone();
                assert(f@ == self@[i as int]);
                Some(f)
            },
            None => None,
        }
    }

    /// Number of fields.
    pub fn len(&self) -> (r: usize)
        ensures
            r == self@.len(),
    {
        self.fields.len()
    }
}

/// Whether `s` occurs in `v`, compared by contents.
pub fn contains_string(v: &Vec<String>, s: &String) -> (r: bool)
    ensures
        r == names_view(v@).contains(s@),
{
    let n = v.len();
    let mut i: usize = 0;
    while i < n
        invariant
            i <= n,
            n == v.len(),
            forall|j: int| 0 <= j < i ==> names_view(v@)[j] != s@,
        decreases n - i,
    {
        if v[i].eq(s) {
            assert(names_view(v@)[i as int] == s@);
            return true;
        }
        assert(names_view(v@)[i as int] == v@[i as int]@);
        i = i + 1;
    }
    assert forall|j: int| 0 <= j < v@.len() implies names_view(v@)[j] != s@ by {}
    false
}

/// The fields of `fields` whose names occur in `names`, in schema order.
pub fn project_field_vec(fields: &Vec<Field>, names: &Vec<String>) -> (r: Vec<Field>)
    ensures
        fields_view(r@) == spec_project_fields(fields_view(fields@), names_view(names@)),
{
    let n = fields.len();
    let mut out: Vec<Field> = Vec::new();
    let mut i: usize = 0;
    while i < n
        invariant
            i <= n,
            n == fields.len(),
            fields_view(out@) == spec_project_fields(
                fields_view(fields@).take(i as int),
                names_view(names@),
            ),
        decreases n - i,
    {
        let ghost pre = fields_view(fields@).take(i as int);
        let ghost post = fields_view(fields@).take(i + 1);
        proof {
            assert(post.drop_last() =~= pre);
            assert(post.last() == fields@[i as int]@);
        }
        if contains_string(names, &fields[i].name) {
            assert(fields@[i as int]@.name == fields@[i as int].name@);
            let ghost old_out = out@;
            out.push(fields[i].clone());
            proof {
                assert(out@.drop_last() =~= old_out);
                assert(fields_view(out@) =~= fields_view(old_out).push(fields@[i as int]@));
                assert(fields_view(out@) =~= spec_project_fields(post, names_view(names@)));
            }
        } else {
            proof {
                assert(fields@[i as int]@.name == fields@[i as int].name@);
                assert(fields_view(out@) =~= spec_project_fields(post, names_view(names@)));
            }
        }
        i = i + 1;
    }
    proof {
        assert(fields_view(fields@).take(n as int) =~= fields_view(fields@));
    }
    out
}

} // verus!
