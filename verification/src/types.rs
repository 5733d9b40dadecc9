//! Structural type descriptors: primitive kinds, options, sequences,
//! records, variants, functions, services, named references into a type
//! environment, and table back-references used on the wire. Within one
//! record or variant the field hashes are kept strictly ascending, so equal
//! hashes among siblings cannot be represented; constructors reject them.

use vstd::prelude::*;
use crate::error::Error;
use crate::idl_hash;
use crate::idl_hash_spec;

verus! {

use vstd::string::StringSliceAdditionalSpecFns;

/// Annotation on a function type; both sides of a comparison must agree on
/// the full annotation list.
#[derive(PartialEq, Eq, Structural, Clone, Copy, Debug)]
pub enum FuncMode {
    /// The call does not change state and may be answered from a replica.
    Query,
    /// The caller does not wait for an answer.
    Oneway,
}

/// A structural type descriptor.
pub enum Type {
    Null,
    Bool,
    Nat,
    Int,
    Nat8,
    Nat16,
    Nat32,
    Nat64,
    Int8,
    Int16,
    Int32,
    Int64,
    Float32,
    Float64,
    Text,
    Reserved,
    Empty,
    Principal,
    /// An optional payload.
    Opt(Box<Type>),
    /// A homogeneous sequence.
    Vector(Box<Type>),
    /// Fields ordered by strictly ascending hash.
    Record(Vec<Field>),
    /// Alternatives ordered by strictly ascending hash.
    Variant(Vec<Field>),
    /// A method type: argument types, return types, annotations.
    Func(FuncType),
    /// Named methods, each a `Func` (or a reference resolving to one).
    Service(Vec<Method>),
    /// A named reference, resolved through the owning type environment.
    Var(String),
    /// A back-reference into a wire message's type table.
    Index(u64),
}

/// One record field or variant alternative: wire identifier, source label,
/// payload type. A numeric label is its own identifier and carries an empty
/// label text.
pub struct Field {
    pub hash: u32,
    pub label: String,
    pub ty: Type,
}

/// A function type's pieces.
pub struct FuncType {
    pub args: Vec<Type>,
    pub rets: Vec<Type>,
    pub modes: Vec<FuncMode>,
}

/// One service method.
pub struct Method {
    pub name: String,
    pub ty: Type,
}

/// Sibling fields carry strictly ascending hashes: order is canonical and no
/// two siblings share a hash.
pub open spec fn fields_sorted(fs: Seq<Field>) -> bool {
    forall|i: int, j: int| 0 <= i < j < fs.len() ==> fs[i].hash < fs[j].hash
}

/// A named field: its wire identifier is the label hash.
pub fn field_named(label: &str, ty: Type) -> (r: Field)
    ensures
        r.hash == idl_hash_spec(label.spec_bytes()),
        r.label@ == label@,
        r.ty == ty,
{
    Field { hash: idl_hash(label), label: label.to_owned(), ty }
}

/// A numeric field: the literal decimal value is the wire identifier
/// directly, with no label text.
pub fn field_id(id: u32, ty: Type) -> (r: Field)
    ensures
        r.hash == id,
        r.label@ == Seq::<char>::empty(),
        r.ty == ty,
{
    Field { hash: id, label: String::new(), ty }
}

/// No two positions in the list carry the same hash.
pub open spec fn hashes_distinct(fs: Seq<Field>) -> bool {
    forall|i: int, j: int| 0 <= i < j < fs.len()
        ==> #[trigger] fs[i].hash != #[trigger] fs[j].hash
}

/// Scans for two positions sharing a hash: the pair when one exists,
/// nothing exactly when all hashes are distinct.
fn find_collision(fields: &Vec<Field>) -> (r: Option<(usize, usize)>)
    ensures
        match r {
            Some(p) => {
                &&& p.0 < p.1 < fields@.len()
                &&& fields@[p.0 as int].hash == fields@[p.1 as int].hash
            },
            None => hashes_distinct(fields@),
        },
{
    let n: usize = fields.len();
    let mut i: usize = 0;
    while i < n
        invariant
            n == fields@.len(),
            i <= n,
            forall|a: int, b: int| 0 <= a < i && a < b < fields@.len()
                ==> #[trigger] fields@[a].hash != #[trigger] fields@[b].hash,
        decreases n - i,
    {
        let mut j: usize = i + 1;
        while j < n
            invariant
                n == fields@.len(),
                i < j,
                forall|b: int| i < b < j ==> #[trigger] fields@[b].hash != fields@[i as int].hash,
            decreases n - j,
        {
            if fields[j].hash == fields[i].hash {
                return Some((i, j));
            }
            j = j + 1;
        }
        i = i + 1;
    }
    None
}

/// Insertion sort by ascending hash; distinct hashes keep the order strict.
#[verifier::rlimit(30)]
fn insert_sorted(fields: Vec<Field>) -> (out: Vec<Field>)
    requires
        hashes_distinct(fields@),
    ensures
        fields_sorted(out@),
        out@.to_multiset() == fields@.to_multiset(),
        out@.len() == fields@.len(),
{
    let mut out: Vec<Field> = Vec::new();
    let ghost all = fields@;
    proof {
        assert(all == fields@);
        assert(hashes_distinct(all));
    }
    let mut rest = fields;
    let orig_len: usize = rest.len();
    let mut taken: usize = 0;
    proof {
        assert(all.skip(0) =~= all);
        assert(out@ =~= all.take(0));
    }
    while rest.len() > 0
        invariant
            all.len() == orig_len,
            hashes_distinct(all),
            taken + rest@.len() == all.len(),
            rest@ =~= all.skip(taken as int),
            fields_sorted(out@),
            out@.len() == taken,
            out@.to_multiset() == all.take(taken as int).to_multiset(),
        decreases rest@.len(),
    {
        let f = rest.remove(0);
        proof {
            assert(all.skip(taken as int)[0] == all[taken as int]);
            assert(f == all[taken as int]);
            assert(rest@ =~= all.skip(taken + 1));
        }
        // find the insert position that keeps hashes strictly ascending
        let mut k: usize = 0;
        while k < out.len() && out[k].hash < f.hash
            invariant
                k <= out@.len(),
                forall|i: int| 0 <= i < k ==> out@[i].hash < f.hash,
                fields_sorted(out@),
            decreases out@.len() - k,
        {
            k = k + 1;
        }
        let ghost before = out@;
        proof {
            broadcast use vstd::seq_lib::group_to_multiset_ensures;
            // every entry of out is an earlier input field, so its hash
            // differs from f's: the position search cannot land on an equal
            assert forall|i: int| 0 <= i < before.len() implies
                before[i].hash != f.hash by {
                let ghost pre = all.take(taken as int);
                assert(before.contains(before[i]));
                assert(before.to_multiset().count(before[i]) > 0);
                assert(pre.contains(before[i]));
                let j0 = choose|j: int| 0 <= j < pre.len() && pre[j] == before[i];
                assert(all[j0] == before[i]);
                assert(all[j0].hash != all[taken as int].hash);
            }
        }
        out.insert(k, f);
        proof {
            broadcast use vstd::seq_lib::group_to_multiset_ensures;
            assert(forall|i: int| 0 <= i < k ==> out@[i] == before[i]);
            assert(out@[k as int] == f);
            assert(forall|i: int| k < i < out@.len() ==> out@[i] == before[i - 1]);
            assert(fields_sorted(out@));
            vstd::seq_lib::to_multiset_insert(before, k as int, f);
            vstd::seq_lib::to_multiset_build(all.take(taken as int), all[taken as int]);
            assert(all.take(taken + 1) =~= all.take(taken as int).push(all[taken as int]));
            assert(out@.to_multiset() =~= all.take(taken + 1).to_multiset());
        }
        taken = taken + 1;
    }
    proof {
        assert(all.take(all.len() as int) =~= all);
    }
    out
}

fn sort_fields(fields: Vec<Field>) -> (r: Result<Vec<Field>, Error>)
    ensures
        match r {
            Ok(out) => {
                &&& fields_sorted(out@)
                &&& out@.to_multiset() == fields@.to_multiset()
                &&& out@.len() == fields@.len()
                &&& hashes_distinct(fields@)
            },
            Err(e) => {
                &&& e is TypeTable
                &&& !hashes_distinct(fields@)
            },
        },
{
    match find_collision(&fields) {
        Some(_) => {
            proof {
                assert(!hashes_distinct(fields@));
            }
            Err(Error::TypeTable(
                "duplicate hash among sibling labels".to_owned()))
        },
        None => Ok(insert_sorted(fields)),
    }
}

/// Builds a record type: sorts the fields by ascending hash. The result
/// holds exactly the given fields reordered; construction fails, with a
/// `TypeTable` error, exactly when two sibling labels share a hash — a
/// collision is rejected at construction time, never silently overwritten.
pub fn record(fields: Vec<Field>) -> (r: Result<Type, Error>)
    ensures
        match r {
            Ok(t) => {
                &&& t is Record
                &&& fields_sorted(t->Record_0@)
                &&& t->Record_0@.to_multiset() == fields@.to_multiset()
                &&& t->Record_0@.len() == fields@.len()
                &&& hashes_distinct(fields@)
            },
            Err(e) => {
                &&& e is TypeTable
                &&& !hashes_distinct(fields@)
            },
        },
{
    match sort_fields(fields) {
        Ok(fs) => {
            let t = Type::Record(fs);
            Ok(t)
        },
        Err(e) => Err(e),
    }
}

/// Builds a variant type under the same ordering and collision rule as
/// `record`: success exactly on collision-free alternatives, the result a
/// hash-sorted permutation of the input.
pub fn variant(fields: Vec<Field>) -> (r: Result<Type, Error>)
    ensures
        match r {
            Ok(t) => {
                &&& t is Variant
                &&& fields_sorted(t->Variant_0@)
                &&& t->Variant_0@.to_multiset() == fields@.to_multiset()
                &&& t->Variant_0@.len() == fields@.len()
                &&& hashes_distinct(fields@)
            },
            Err(e) => {
                &&& e is TypeTable
                &&& !hashes_distinct(fields@)
            },
        },
{
    match sort_fields(fields) {
        Ok(fs) => {
            let t = Type::Variant(fs);
            Ok(t)
        },
        Err(e) => Err(e),
    }
}

} // verus!
