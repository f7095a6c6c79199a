use vstd::prelude::*;

verus! {

/// Logical type of one table column.
#[derive(Clone, Copy, PartialEq, Eq, Structural, Debug)]
pub enum ColumnType {
    Text,
    Int32,
    Int64,
    Boolean,
}

/// One named, typed column of a table schema.
#[derive(Debug, PartialEq)]
pub struct ColumnDef {
    pub name: String,
    pub column_type: ColumnType,
    pub required: bool,
}

/// Model of a column definition: the name as a character sequence.
pub struct ColumnDefV {
    pub name: Seq<char>,
    pub column_type: ColumnType,
    pub required: bool,
}

impl View for ColumnDef {
    type V = ColumnDefV;

    open spec fn view(&self) -> ColumnDefV {
        ColumnDefV { name: self.name@, column_type: self.column_type, required: self.required }
    }
}

impl Clone for ColumnDef {
    fn clone(&self) -> (r: Self)
        ensures
            r@ == self@,
    {
        ColumnDef {
            name: self.name.clone(),
            column_type: self.column_type,
            required: self.required,
        }
    }
}

/// An ordered sequence of named, typed columns.  A table's schema is fixed
/// when the table is created; every data file written for the table must
/// match it exactly.
#[derive(Debug, PartialEq)]
pub struct Schema {
    pub columns: Vec<ColumnDef>,
}

/// The models of a sequence of column definitions.
pub open spec fn coldefs_view(cs: Seq<ColumnDef>) -> Seq<ColumnDefV> {
    cs.map_values(|c: ColumnDef| c@)
}

impl View for Schema {
    type V = Seq<ColumnDefV>;

    open spec fn view(&self) -> Seq<ColumnDefV> {
        coldefs_view(self.columns@)
    }
}

/// A schema is well formed when no two columns share a name.
pub open spec fn schema_wf(s: Seq<ColumnDefV>) -> bool {
    forall|i: int, j: int| 0 <= i < j < s.len() ==> s[i].name != s[j].name
}

/// Whether some column of the schema carries the given name.
pub open spec fn schema_has_column(s: Seq<ColumnDefV>, name: Seq<char>) -> bool {
    exists|i: int| 0 <= i < s.len() && s[i].name == name
}

impl Schema {
    pub open spec fn wf(&self) -> bool {
        schema_wf(self@)
    }

    pub fn len(&self) -> (n: usize)
        ensures
            n == self@.len(),
    {
        self.columns.len()
    }
}

impl Clone for Schema {
    fn clone(&self) -> (r: Self)
        ensures
            r@ == self@,
    {
        let mut columns: Vec<ColumnDef> = Vec::new();
        for k in 0..self.columns.len()
            invariant
                columns@.len() == k,
                forall|i: int| 0 <= i < k ==> #[trigger] columns@[i]@ == self.columns@[i]@,
        {
            columns.push(self.columns[k].clone());
        }
        let r = Schema { columns };
        proof {
            assert(r@ =~= self@);
        }
        r
    }
}

/// Structural equality of two schemas: same column count and, position by
/// position, the same name, logical type and nullability.
pub fn schemas_equal(a: &Schema, b: &Schema) -> (r: bool)
    ensures
        r <==> a@ =~= b@,
{
    if a.columns.len() != b.columns.len() {
        return false;
    }
    for k in 0..a.columns.len()
        invariant
            a@.len() == b@.len(),
            forall|i: int| 0 <= i < k ==> a@[i] == b@[i],
    {
        let ca = &a.columns[k];
        let cb = &b.columns[k];
        if !(ca.name == cb.name && ca.column_type == cb.column_type && ca.required == cb.required)
        {
            proof {
                assert(a@[k as int] == a.columns@[k as int]@);
                assert(b@[k as int] == b.columns@[k as int]@);
                assert(a@[k as int] != b@[k as int]);
                assert(!(a@ =~= b@));
            }
            return false;
        }
        proof {
            assert(a@[k as int] == b@[k as int]);
        }
    }
    proof {
        assert(a@ =~= b@);
    }
    true
}

} // verus!
