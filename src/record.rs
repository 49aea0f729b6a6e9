//! Assembling the record: template parts, fields in name order, and the map
//! from rendering order to that order.
use vstd::prelude::*;
use crate::field::{part_views, unique_names, views, Field, FieldView, Part, PartView, ResolveError};
use crate::resolve::{conflicts, duplicated, resolvable, resolve, resolved, unresolved};
use crate::sort::{sort_fields, sorted_layout};
use crate::template::{field_decl_spec, parse, parse_fields, parse_spec, Template};

verus! {

/// A resolved template, ready to hand to a sink.
///
/// `kvs` holds the fields in ascending name order; `index_map[i]` is the
/// position in `kvs` of the field at rendering position `i`.
pub struct Record {
    pub parts: Vec<Part>,
    pub kvs: Vec<Field>,
    pub index_map: Vec<usize>,
}

/// What assembling parts `p`, holes `h` and extras `e` gives: a record exactly
/// when the holes and extras can be merged, else an error whose cause is
/// present, with duplicates reported first.
pub open spec fn assembled(
    p: Seq<PartView>,
    h: Seq<FieldView>,
    e: Seq<FieldView>,
    r: Result<Record, ResolveError>,
) -> bool {
    &&& r is Ok <==> resolvable(h, e)
    &&& (r matches Ok(rec) ==> part_views(rec.parts@) == p && sorted_layout(
        resolved(h, e),
        views(rec.kvs@),
        rec.index_map@,
    ))
    &&& (r matches Err(ResolveError::DuplicateKey(k)) ==> duplicated(h, k@) || duplicated(e, k@))
    &&& (r matches Err(ResolveError::Conflict(k)) ==> conflicts(h, e, k@))
    &&& (r matches Err(ResolveError::UnresolvedHole(k)) ==> unresolved(h, e, k@))
    &&& (!unique_names(h) || !unique_names(e) ==> (r matches Err(ResolveError::DuplicateKey(_))))
    &&& !(r matches Err(ResolveError::Parse))
}

/// Resolves a parsed template against the extra fields and lays the result
/// out in name order.
pub fn build_record(template: Template, extras: &Vec<Field>) -> (r: Result<Record, ResolveError>)
    ensures
        assembled(part_views(template.parts@), views(template.holes@), views(extras@), r),
{
    let fields = match resolve(&template.holes, extras) {
        Ok(v) => v,
        Err(e) => {
            return Err(e);
        },
    };
    let (kvs, index_map) = sort_fields(&fields);
    Ok(Record { parts: template.parts, kvs, index_map })
}

/// Parses template text and resolves it against the extra fields.
pub fn expand(template: &str, extras: &Vec<Field>) -> (r: Result<Record, ResolveError>)
    ensures
        match parse_spec(template@) {
            Some((p, h)) => assembled(p, h, views(extras@), r),
            None => r matches Err(ResolveError::Parse),
        },
{
    let t = match parse(template) {
        Ok(t) => t,
        Err(e) => {
            return Err(e);
        },
    };
    build_record(t, extras)
}

/// The fields that well-formed declarations `d` stand for.
pub open spec fn decl_views(d: Seq<String>) -> Seq<FieldView> {
    d.map_values(|s: String| field_decl_spec(s@)->Some_0)
}

/// Parses template text and field declarations, and resolves them.
pub fn expand_decls(template: &str, decls: &Vec<String>) -> (r: Result<Record, ResolveError>)
    ensures
        !(forall|i: int| 0 <= i < decls@.len() ==> #[trigger] field_decl_spec(decls@[i]@) is Some)
            ==> r matches Err(ResolveError::Parse),
        (forall|i: int| 0 <= i < decls@.len() ==> #[trigger] field_decl_spec(decls@[i]@) is Some)
            ==> match parse_spec(template@) {
            Some((p, h)) => assembled(p, h, decl_views(decls@), r),
            None => r matches Err(ResolveError::Parse),
        },
{
    let extras = match parse_fields(decls) {
        Ok(v) => v,
        Err(e) => {
            return Err(e);
        },
    };
    assert(views(extras@) =~= decl_views(decls@));
    expand(template, &extras)
}

/// `names` holds the names of `kvs`, position by position.
pub open spec fn names_align(names: Seq<String>, kvs: Seq<Field>) -> bool {
    &&& names.len() == kvs.len()
    &&& forall|i: int| 0 <= i < names.len() ==> #[trigger] names[i]@ == kvs[i].name@
}

/// A consumer of records: it formats, stores or sends them.
pub trait Sink {
    /// Handles one record. `names` are the field names in sorted order,
    /// aligned with `record.kvs`; `target` names the intended destination.
    fn handle(&self, target: Option<&String>, names: &Vec<String>, record: &Record)
        requires
            names_align(names@, record.kvs@),
    ;
}

/// The sink that ignores every record.
pub struct NoSink;

impl Sink for NoSink {
    fn handle(&self, _target: Option<&String>, _names: &Vec<String>, _record: &Record) {
    }
}

/// Hands a record, with its field names in sorted order, to a sink.
pub fn dispatch<S: Sink>(sink: &S, target: Option<&String>, record: &Record) {
    let names = record.sorted_names();
    sink.handle(target, &names, record);
}

impl Record {
    /// The field names in sorted order, aligned with `kvs`.
    pub fn sorted_names(&self) -> (r: Vec<String>)
        ensures
            names_align(r@, self.kvs@),
    {
        let mut r: Vec<String> = Vec::new();
        let mut i: usize = 0;
        while i < self.kvs.len()
            invariant
                i <= self.kvs@.len(),
                r@.len() == i,
                forall|j: int| 0 <= j < i ==> #[trigger] r@[j]@ == self.kvs@[j].name@,
            decreases self.kvs@.len() - i,
        {
            r.push(self.kvs[i].name.clone());
            i = i + 1;
        }
        r
    }

    /// The field at rendering position `i`.
    pub fn field_at(&self, i: usize) -> (f: &Field)
        requires
            i < self.index_map@.len(),
            forall|j: int| 0 <= j < self.index_map@.len() ==> #[trigger] self.index_map@[j] < self.kvs@.len(),
        ensures
            f == self.kvs@[self.index_map@[i as int] as int],
    {
        &self.kvs[self.index_map[i]]
    }
}

} // verus!
