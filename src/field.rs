//! Fields, template parts, errors, and the order on field names.
use vstd::prelude::*;

verus! {

/// A named value binding: from a template hole or from the extra list.
///
/// `expr` is the text of the value-producing expression; `None` means a bare
/// name, bound to the value of the same name in the caller's scope.
/// `attrs` are opaque tags, carried through without interpretation.
pub struct Field {
    pub name: String,
    pub expr: Option<String>,
    pub attrs: Vec<String>,
}

/// What a field holds, as mathematical values.
pub struct FieldView {
    pub name: Seq<char>,
    pub expr: Option<Seq<char>>,
    pub attrs: Seq<Seq<char>>,
}

pub open spec fn opt_view(o: Option<String>) -> Option<Seq<char>> {
    match o {
        Some(s) => Some(s@),
        None => None,
    }
}

impl View for Field {
    type V = FieldView;

    open spec fn view(&self) -> FieldView {
        FieldView {
            name: self.name@,
            expr: opt_view(self.expr),
            attrs: self.attrs@.map_values(|a: String| a@),
        }
    }
}

/// A piece of a parsed template: literal text, or a hole naming a field.
pub enum Part {
    Text(String),
    Hole(String),
}

/// A template part as mathematical values.
pub enum PartView {
    Text(Seq<char>),
    Hole(Seq<char>),
}

impl View for Part {
    type V = PartView;

    open spec fn view(&self) -> PartView {
        match self {
            Part::Text(t) => PartView::Text(t@),
            Part::Hole(n) => PartView::Hole(n@),
        }
    }
}

/// The views of a sequence of template parts.
pub open spec fn part_views(s: Seq<Part>) -> Seq<PartView> {
    s.map_values(|p: Part| p@)
}

/// Why a template and its extra fields could not be resolved into a record.
#[derive(PartialEq, Eq, Debug)]
pub enum ResolveError {
    /// The template text is malformed: unbalanced braces or a bad hole name.
    Parse,
    /// A hole and an extra field of this name both supply the value.
    Conflict(String),
    /// A hole of this name has no value of its own and no extra field.
    UnresolvedHole(String),
    /// Two fields of this name would end up in the record.
    DuplicateKey(String),
}

/// The views of a sequence of fields.
pub open spec fn views(s: Seq<Field>) -> Seq<FieldView> {
    s.map_values(|f: Field| f@)
}

/// The names of a sequence of field views.
pub open spec fn names(s: Seq<FieldView>) -> Seq<Seq<char>> {
    s.map_values(|f: FieldView| f.name)
}

/// Whether some field of `s` is named `k`.
pub open spec fn has_name(s: Seq<FieldView>, k: Seq<char>) -> bool {
    exists|j: int| 0 <= j < s.len() && #[trigger] s[j].name == k
}

/// No two fields of `s` share a name.
pub open spec fn unique_names(s: Seq<FieldView>) -> bool {
    forall|i: int, j: int| 0 <= i < j < s.len() ==> #[trigger] s[i].name != #[trigger] s[j].name
}

/// Lexicographic order on names, by character code.
pub open spec fn name_lt(a: Seq<char>, b: Seq<char>) -> bool
    decreases a.len(),
{
    if a.len() == 0 {
        b.len() > 0
    } else if b.len() == 0 {
        false
    } else if a[0] != b[0] {
        (a[0] as u32) < (b[0] as u32)
    } else {
        name_lt(a.drop_first(), b.drop_first())
    }
}

/// `name_lt` is transitive.
pub proof fn lemma_name_lt_transitive(a: Seq<char>, b: Seq<char>, c: Seq<char>)
    requires
        name_lt(a, b),
        name_lt(b, c),
    ensures
        name_lt(a, c),
    decreases a.len(),
{
    if a.len() > 0 && b.len() > 0 && c.len() > 0 && a[0] == b[0] && b[0] == c[0] {
        lemma_name_lt_transitive(a.drop_first(), b.drop_first(), c.drop_first());
    }
}

/// `name_lt` is asymmetric.
pub proof fn lemma_name_lt_asymmetric(a: Seq<char>, b: Seq<char>)
    requires
        name_lt(a, b),
    ensures
        !name_lt(b, a),
    decreases a.len(),
{
    if a.len() > 0 && b.len() > 0 && a[0] == b[0] {
        lemma_name_lt_asymmetric(a.drop_first(), b.drop_first());
    }
}

/// Of two different names, one comes first under `name_lt`.
pub proof fn lemma_name_lt_total(a: Seq<char>, b: Seq<char>)
    requires
        a != b,
    ensures
        name_lt(a, b) || name_lt(b, a),
    decreases a.len(),
{
    if a.len() > 0 && b.len() > 0 && a[0] == b[0] {
        if a.drop_first() == b.drop_first() {
            assert(a =~= seq![a[0]] + a.drop_first());
            assert(b =~= seq![b[0]] + b.drop_first());
        }
        lemma_name_lt_total(a.drop_first(), b.drop_first());
    } else if a.len() > 0 && b.len() > 0 {
        if a[0] as u32 == b[0] as u32 {
            char_code_injective(a[0], b[0]);
        }
    } else if a.len() == 0 && b.len() == 0 {
        assert(a =~= b);
    }
}

proof fn char_code_injective(c: char, d: char)
    requires c as u32 == d as u32,
    ensures c == d,
{
}

/// Compares two names in the order `name_lt`.
pub fn name_less(a: &String, b: &String) -> (r: bool)
    ensures
        r == name_lt(a@, b@),
{
    let sa = a.as_str();
    let sb = b.as_str();
    let la = sa.unicode_len();
    let lb = sb.unicode_len();
    let mut i: usize = 0;
    assert(a@.subrange(0, la as int) =~= a@);
    assert(b@.subrange(0, lb as int) =~= b@);
    while i < la && i < lb
        invariant
            la == a@.len(),
            lb == b@.len(),
            sa@ == a@,
            sb@ == b@,
            i <= la,
            i <= lb,
            a@.subrange(0, i as int) == b@.subrange(0, i as int),
            name_lt(a@, b@) == name_lt(a@.subrange(i as int, la as int), b@.subrange(i as int, lb as int)),
        decreases la - i,
    {
        let ca = sa.get_char(i);
        let cb = sb.get_char(i);
        if ca != cb {
            return (ca as u32) < (cb as u32);
        }
        assert(a@.subrange(i as int, la as int).drop_first() =~= a@.subrange(i + 1, la as int));
        assert(b@.subrange(i as int, lb as int).drop_first() =~= b@.subrange(i + 1, lb as int));
        assert(a@.subrange(0, i + 1) =~= a@.subrange(0, i as int).push(ca));
        assert(b@.subrange(0, i + 1) =~= b@.subrange(0, i as int).push(cb));
        i = i + 1;
    }
    i < lb
}

/// Compares two names for equality.
pub fn name_eq(a: &String, b: &String) -> (r: bool)
    ensures
        r == (a@ == b@),
{
    *a == *b
}

/// A copy of a field, equal to it in every part.
pub fn copy_field(f: &Field) -> (r: Field)
    ensures
        r@ == f@,
{
    let expr = match &f.expr {
        Some(e) => Some(e.clone()),
        None => None,
    };
    let mut attrs: Vec<String> = Vec::new();
    let mut i: usize = 0;
    while i < f.attrs.len()
        invariant
            i <= f.attrs@.len(),
            attrs@.len() == i,
            forall|j: int| 0 <= j < i ==> #[trigger] attrs@[j] == f.attrs@[j],
        decreases f.attrs@.len() - i,
    {
        attrs.push(f.attrs[i].clone());
        i = i + 1;
    }
    assert(attrs@.map_values(|a: String| a@) =~= f.attrs@.map_values(|a: String| a@));
    Field { name: f.name.clone(), expr, attrs }
}

} // verus!
