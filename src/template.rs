//! Splitting template text into literal text and holes.
//!
//! Grammar: literal text, with `{{` and `}}` standing for `{` and `}`, and
//! holes `{name}` or `{name: expr}`, each optionally led by tags `#[tag]`, as in
//! `{#[tag] name}` (whitespace may stand between `#` and `[`). A name is an
//! ASCII identifier. An expression runs to the `}` that closes its hole:
//! braces nested in it, and braces inside its string and character literals,
//! belong to it. Whitespace around it is dropped.
use vstd::prelude::*;
use crate::field::{part_views, views, Field, FieldView, Part, PartView, ResolveError};

verus! {

pub open spec fn is_space(c: char) -> bool {
    c == ' ' || c == '\t' || c == '\n' || c == '\r'
}

pub open spec fn is_ident_start(c: char) -> bool {
    ('a' <= c && c <= 'z') || ('A' <= c && c <= 'Z') || c == '_'
}

pub open spec fn is_ident_continue(c: char) -> bool {
    is_ident_start(c) || ('0' <= c && c <= '9')
}

/// Where the scanner stands; positions are indices into the template.
pub enum Mode {
    /// In literal text.
    Text,
    /// After a `{` in literal text.
    Open,
    /// After a `}` in literal text.
    Close,
    /// Inside a hole, before a tag or the name.
    Lead,
    /// After the `#` of a tag, before its `[`.
    Hash,
    /// Inside a tag that starts at the position.
    Tag(usize),
    /// Inside a name that starts at the position.
    Name(usize),
    /// After the name of a hole.
    AfterName,
    /// Inside an expression: where it starts, and how many of its own `{`
    /// are still open.
    Expr(usize, usize),
    /// Inside a string literal of an expression: its start and brace depth.
    ExprStr(usize, usize),
    /// After a `\` in a string literal of an expression.
    ExprStrEsc(usize, usize),
    /// Inside a character literal of an expression: its start and brace depth.
    ExprChar(usize, usize),
    /// After a `\` in a character literal of an expression.
    ExprCharEsc(usize, usize),
}

/// The scanner's state: finished parts and holes, the pending literal text,
/// and the tags and name of the hole being read.
pub struct Scan {
    pub mode: Mode,
    pub parts: Seq<PartView>,
    pub holes: Seq<FieldView>,
    pub text: Seq<char>,
    pub attrs: Seq<Seq<char>>,
    pub name: Seq<char>,
}

/// The parts with the pending literal text appended, if there is any.
pub open spec fn flush(parts: Seq<PartView>, text: Seq<char>) -> Seq<PartView> {
    if text.len() > 0 {
        parts.push(PartView::Text(text))
    } else {
        parts
    }
}

/// The first position from `a` on, below `b`, that holds no whitespace.
pub open spec fn skip_space(s: Seq<char>, a: int, b: int) -> int
    decreases b - a,
{
    if a < b && is_space(s[a]) {
        skip_space(s, a + 1, b)
    } else {
        a
    }
}

/// The end of `s[a..b]` with trailing whitespace dropped.
pub open spec fn back_space(s: Seq<char>, a: int, b: int) -> int
    decreases b - a,
{
    if a < b && is_space(s[b - 1]) {
        back_space(s, a, b - 1)
    } else {
        b
    }
}

/// `s[a..b]` without leading and trailing whitespace.
pub open spec fn trimmed(s: Seq<char>, a: int, b: int) -> Seq<char> {
    let c = skip_space(s, a, b);
    s.subrange(c, back_space(s, c, b))
}

/// Closes the hole being read, with the given expression.
pub open spec fn close_hole(st: Scan, expr: Option<Seq<char>>) -> Scan {
    Scan {
        mode: Mode::Text,
        parts: st.parts.push(PartView::Hole(st.name)),
        holes: st.holes.push(FieldView { name: st.name, attrs: st.attrs, expr }),
        text: Seq::empty(),
        attrs: Seq::empty(),
        name: Seq::empty(),
    }
}

/// The state with the mode replaced.
pub open spec fn with_mode(st: Scan, m: Mode) -> Scan {
    Scan { mode: m, ..st }
}

/// The step on character `s[i]` inside a hole, before its name.
pub open spec fn lead_step(s: Seq<char>, i: int, st: Scan) -> Option<Scan> {
    let c = s[i];
    if is_space(c) {
        Some(with_mode(st, Mode::Lead))
    } else if c == '#' {
        Some(with_mode(st, Mode::Hash))
    } else if is_ident_start(c) {
        Some(with_mode(st, Mode::Name(i as usize)))
    } else {
        None
    }
}

/// The step on character `s[i]` after a hole's name.
pub open spec fn after_name_step(s: Seq<char>, i: int, st: Scan) -> Option<Scan> {
    let c = s[i];
    if is_space(c) {
        Some(with_mode(st, Mode::AfterName))
    } else if c == '}' {
        Some(close_hole(st, None))
    } else if c == ':' {
        Some(with_mode(st, Mode::Expr((i + 1) as usize, 0)))
    } else {
        None
    }
}

/// Positions held by the mode do not pass `i`.
pub open spec fn mode_within(m: Mode, i: int) -> bool {
    match m {
        Mode::Tag(a) => a <= i,
        Mode::Name(a) => a <= i,
        Mode::Expr(a, d) => a <= i && d <= i,
        Mode::ExprStr(a, d) => a <= i && d <= i,
        Mode::ExprStrEsc(a, d) => a <= i && d <= i,
        Mode::ExprChar(a, d) => a <= i && d <= i,
        Mode::ExprCharEsc(a, d) => a <= i && d <= i,
        _ => true,
    }
}

/// The step of the scanner on character `s[i]`; `None` where the template is
/// malformed.
pub open spec fn step(s: Seq<char>, i: int, st: Scan) -> Option<Scan> {
    let c = s[i];
    match st.mode {
        Mode::Text => if c == '{' {
            Some(with_mode(st, Mode::Open))
        } else if c == '}' {
            Some(with_mode(st, Mode::Close))
        } else {
            Some(Scan { text: st.text.push(c), ..st })
        },
        Mode::Open => if c == '{' {
            Some(Scan { mode: Mode::Text, text: st.text.push(c), ..st })
        } else {
            lead_step(s, i, Scan { parts: flush(st.parts, st.text), text: Seq::empty(), ..st })
        },
        Mode::Close => if c == '}' {
            Some(Scan { mode: Mode::Text, text: st.text.push(c), ..st })
        } else {
            None
        },
        Mode::Lead => lead_step(s, i, st),
        Mode::Hash => if c == '[' {
            Some(with_mode(st, Mode::Tag((i + 1) as usize)))
        } else if is_space(c) {
            Some(st)
        } else {
            None
        },
        Mode::Tag(a) => if c == ']' {
            Some(Scan { mode: Mode::Lead, attrs: st.attrs.push(s.subrange(a as int, i)), ..st })
        } else if c == '[' || c == '{' || c == '}' {
            None
        } else {
            Some(st)
        },
        Mode::Name(a) => if is_ident_continue(c) {
            Some(st)
        } else {
            after_name_step(s, i, Scan { name: s.subrange(a as int, i), ..st })
        },
        Mode::AfterName => after_name_step(s, i, st),
        Mode::Expr(a, d) => if c == '}' {
            if d > 0 {
                Some(with_mode(st, Mode::Expr(a, (d - 1) as usize)))
            } else {
                let e = trimmed(s, a as int, i);
                if e.len() == 0 {
                    None
                } else {
                    Some(close_hole(st, Some(e)))
                }
            }
        } else if c == '{' {
            Some(with_mode(st, Mode::Expr(a, (d + 1) as usize)))
        } else if c == '"' {
            Some(with_mode(st, Mode::ExprStr(a, d)))
        } else if c == '\'' {
            Some(with_mode(st, Mode::ExprChar(a, d)))
        } else {
            Some(st)
        },
        Mode::ExprStr(a, d) => if c == '\\' {
            Some(with_mode(st, Mode::ExprStrEsc(a, d)))
        } else if c == '"' {
            Some(with_mode(st, Mode::Expr(a, d)))
        } else {
            Some(st)
        },
        Mode::ExprStrEsc(a, d) => Some(with_mode(st, Mode::ExprStr(a, d))),
        Mode::ExprChar(a, d) => if c == '\\' {
            Some(with_mode(st, Mode::ExprCharEsc(a, d)))
        } else if c == '\'' {
            Some(with_mode(st, Mode::Expr(a, d)))
        } else {
            Some(st)
        },
        Mode::ExprCharEsc(a, d) => Some(with_mode(st, Mode::ExprChar(a, d))),
    }
}

/// The result of scanning `s` from position `i` in state `st`.
pub open spec fn run(s: Seq<char>, i: int, st: Scan) -> Option<(Seq<PartView>, Seq<FieldView>)>
    decreases s.len() - i,
{
    if i < 0 || i >= s.len() {
        if st.mode is Text {
            Some((flush(st.parts, st.text), st.holes))
        } else {
            None
        }
    } else {
        match step(s, i, st) {
            Some(next) => run(s, i + 1, next),
            None => None,
        }
    }
}

/// The state at the start of a template.
pub open spec fn start() -> Scan {
    Scan {
        mode: Mode::Text,
        parts: Seq::empty(),
        holes: Seq::empty(),
        text: Seq::empty(),
        attrs: Seq::empty(),
        name: Seq::empty(),
    }
}

/// The parts and holes of template text `s`, or `None` where it is malformed.
pub open spec fn parse_spec(s: Seq<char>) -> Option<(Seq<PartView>, Seq<FieldView>)> {
    run(s, 0, start())
}

/// A parsed template: its parts in rendering order, and one field per hole.
pub struct Template {
    pub parts: Vec<Part>,
    pub holes: Vec<Field>,
}

fn is_space_char(c: char) -> (r: bool)
    ensures
        r == is_space(c),
{
    c == ' ' || c == '\t' || c == '\n' || c == '\r'
}

fn is_ident_start_char(c: char) -> (r: bool)
    ensures
        r == is_ident_start(c),
{
    ('a' <= c && c <= 'z') || ('A' <= c && c <= 'Z') || c == '_'
}

fn is_ident_continue_char(c: char) -> (r: bool)
    ensures
        r == is_ident_continue(c),
{
    is_ident_start_char(c) || ('0' <= c && c <= '9')
}

/// The characters `t[a..b]` as a string.
fn slice(t: &str, a: usize, b: usize) -> (r: String)
    requires
        a <= b <= t@.len(),
    ensures
        r@ == t@.subrange(a as int, b as int),
{
    String::from_str(t.substring_char(a, b))
}

/// `t[a..b]` without leading and trailing whitespace.
fn trim_range(t: &str, a: usize, b: usize) -> (r: String)
    requires
        a <= b <= t@.len(),
    ensures
        r@ == trimmed(t@, a as int, b as int),
{
    let mut c = a;
    while c < b && is_space_char(t.get_char(c))
        invariant
            a <= c <= b <= t@.len(),
            skip_space(t@, a as int, b as int) == skip_space(t@, c as int, b as int),
        decreases b - c,
    {
        c = c + 1;
    }
    let mut d = b;
    while d > c && is_space_char(t.get_char(d - 1))
        invariant
            c <= d <= b <= t@.len(),
            c == skip_space(t@, a as int, b as int),
            back_space(t@, c as int, b as int) == back_space(t@, c as int, d as int),
        decreases d - c,
    {
        d = d - 1;
    }
    slice(t, c, d)
}

struct Scanner {
    mode: Mode,
    parts: Vec<Part>,
    holes: Vec<Field>,
    text: String,
    attrs: Vec<String>,
    name: String,
}

impl View for Scanner {
    type V = Scan;

    closed spec fn view(&self) -> Scan {
        Scan {
            mode: self.mode,
            parts: part_views(self.parts@),
            holes: views(self.holes@),
            text: self.text@,
            attrs: self.attrs@.map_values(|a: String| a@),
            name: self.name@,
        }
    }
}

impl Scanner {
    fn close_hole(&mut self, expr: Option<String>)
        ensures
            final(self)@ == close_hole(old(self)@, crate::field::opt_view(expr)),
    {
        let ghost st = self@;
        let mut name = String::new();
        core::mem::swap(&mut name, &mut self.name);
        let mut attrs: Vec<String> = Vec::new();
        core::mem::swap(&mut attrs, &mut self.attrs);
        let name2 = name.clone();
        self.parts.push(Part::Hole(name));
        self.holes.push(Field { name: name2, expr, attrs });
        self.mode = Mode::Text;
        self.text = String::new();
        proof {
            let want = close_hole(st, crate::field::opt_view(expr));
            assert(self@.parts =~= want.parts);
            assert(self@.holes =~= want.holes);
            assert(self@.text =~= want.text);
            assert(self@.attrs =~= want.attrs);
            assert(self@.name =~= want.name);
        }
    }

    fn lead_step(&mut self, t: &str, i: usize) -> (ok: bool)
        requires
            i < t@.len() <= usize::MAX,
        ensures
            ok == lead_step(t@, i as int, old(self)@) is Some,
            ok ==> mode_within(final(self)@.mode, i + 1),
            ok ==> lead_step(t@, i as int, old(self)@) == Some(final(self)@),
    {
        let c = t.get_char(i);
        if is_space_char(c) {
            self.mode = Mode::Lead;
        } else if c == '#' {
            self.mode = Mode::Hash;
        } else if is_ident_start_char(c) {
            self.mode = Mode::Name(i);
        } else {
            return false;
        }
        true
    }

    fn after_name_step(&mut self, t: &str, i: usize) -> (ok: bool)
        requires
            i < t@.len() <= usize::MAX,
        ensures
            ok == after_name_step(t@, i as int, old(self)@) is Some,
            ok ==> mode_within(final(self)@.mode, i + 1),
            ok ==> after_name_step(t@, i as int, old(self)@) == Some(final(self)@),
    {
        let c = t.get_char(i);
        if is_space_char(c) {
            self.mode = Mode::AfterName;
        } else if c == '}' {
            self.close_hole(None);
        } else if c == ':' {
            self.mode = Mode::Expr(i + 1, 0);
        } else {
            return false;
        }
        true
    }

    fn step(&mut self, t: &str, i: usize) -> (ok: bool)
        requires
            i < t@.len() <= usize::MAX,
            mode_within(old(self)@.mode, i as int),
        ensures
            ok == step(t@, i as int, old(self)@) is Some,
            ok ==> mode_within(final(self)@.mode, i + 1),
            ok ==> step(t@, i as int, old(self)@) == Some(final(self)@),
    {
        let c = t.get_char(i);
        let ghost st = self@;
        match self.mode {
            Mode::Text => {
                if c == '{' {
                    self.mode = Mode::Open;
                } else if c == '}' {
                    self.mode = Mode::Close;
                } else {
                    self.text.append(t.substring_char(i, i + 1));
                    assert(self@.text =~= st.text.push(c));
                }
                true
            },
            Mode::Open => {
                if c == '{' {
                    self.mode = Mode::Text;
                    self.text.append(t.substring_char(i, i + 1));
                    assert(self@.text =~= st.text.push(c));
                    true
                } else {
                    if self.text.as_str().unicode_len() > 0 {
                        let mut text = String::new();
                        core::mem::swap(&mut text, &mut self.text);
                        self.parts.push(Part::Text(text));
                        assert(self@.parts =~= flush(st.parts, st.text));
                    } else {
                        assert(self@.parts =~= flush(st.parts, st.text));
                        self.text = String::new();
                    }
                    assert(self@.text =~= Seq::<char>::empty());
                    self.lead_step(t, i)
                }
            },
            Mode::Close => {
                if c == '}' {
                    self.mode = Mode::Text;
                    self.text.append(t.substring_char(i, i + 1));
                    assert(self@.text =~= st.text.push(c));
                    true
                } else {
                    false
                }
            },
            Mode::Lead => self.lead_step(t, i),
            Mode::Hash => {
                if c == '[' {
                    self.mode = Mode::Tag(i + 1);
                    true
                } else {
                    is_space_char(c)
                }
            },
            Mode::Tag(a) => {
                if c == ']' {
                    let tag = slice(t, a, i);
                    self.attrs.push(tag);
                    self.mode = Mode::Lead;
                    assert(self@.attrs =~= st.attrs.push(t@.subrange(a as int, i as int)));
                    true
                } else {
                    !(c == '[' || c == '{' || c == '}')
                }
            },
            Mode::Name(a) => {
                if is_ident_continue_char(c) {
                    true
                } else {
                    self.name = slice(t, a, i);
                    self.after_name_step(t, i)
                }
            },
            Mode::AfterName => self.after_name_step(t, i),
            Mode::Expr(a, d) => {
                if c == '}' {
                    if d > 0 {
                        self.mode = Mode::Expr(a, d - 1);
                        true
                    } else {
                        let e = trim_range(t, a, i);
                        if e.as_str().unicode_len() == 0 {
                            false
                        } else {
                            self.close_hole(Some(e));
                            true
                        }
                    }
                } else if c == '{' {
                    self.mode = Mode::Expr(a, d + 1);
                    true
                } else if c == '"' {
                    self.mode = Mode::ExprStr(a, d);
                    true
                } else if c == '\'' {
                    self.mode = Mode::ExprChar(a, d);
                    true
                } else {
                    true
                }
            },
            Mode::ExprStr(a, d) => {
                if c == '\\' {
                    self.mode = Mode::ExprStrEsc(a, d);
                } else if c == '"' {
                    self.mode = Mode::Expr(a, d);
                }
                true
            },
            Mode::ExprStrEsc(a, d) => {
                self.mode = Mode::ExprStr(a, d);
                true
            },
            Mode::ExprChar(a, d) => {
                if c == '\\' {
                    self.mode = Mode::ExprCharEsc(a, d);
                } else if c == '\'' {
                    self.mode = Mode::Expr(a, d);
                }
                true
            },
            Mode::ExprCharEsc(a, d) => {
                self.mode = Mode::ExprChar(a, d);
                true
            },
        }
    }
}

/// Splits template text into parts and holes.
///
/// Fails with `Parse` on an unbalanced brace, a bad name or tag, or an empty
/// expression.
pub fn parse(t: &str) -> (r: Result<Template, ResolveError>)
    ensures
        match parse_spec(t@) {
            Some((p, h)) => r matches Ok(tp) && part_views(tp.parts@) == p && views(tp.holes@) == h,
            None => r matches Err(ResolveError::Parse),
        },
{
    let mut sc = Scanner {
        mode: Mode::Text,
        parts: Vec::new(),
        holes: Vec::new(),
        text: String::new(),
        attrs: Vec::new(),
        name: String::new(),
    };
    assert(sc@.parts =~= start().parts);
    assert(sc@.holes =~= start().holes);
    assert(sc@.attrs =~= start().attrs);
    assert(sc@ == start());
    let n = t.unicode_len();
    let mut i: usize = 0;
    while i < n
        invariant
            n == t@.len(),
            i <= n,
            parse_spec(t@) == run(t@, i as int, sc@),
            mode_within(sc@.mode, i as int),
        decreases n - i,
    {
        if !sc.step(t, i) {
            return Err(ResolveError::Parse);
        }
        i = i + 1;
    }
    match sc.mode {
        Mode::Text => {},
        _ => {
            return Err(ResolveError::Parse);
        },
    }
    if sc.text.as_str().unicode_len() > 0 {
        let ghost st = sc@;
        sc.parts.push(Part::Text(sc.text));
        assert(part_views(sc.parts@) =~= flush(st.parts, st.text));
    }
    Ok(Template { parts: sc.parts, holes: sc.holes })
}

/// A field declaration (`name`, `name: expr`, each optionally led by tags)
/// is read as the body of a hole; `None` where it is not exactly one.
pub open spec fn field_decl_spec(d: Seq<char>) -> Option<FieldView> {
    match parse_spec(seq!['{'] + d + seq!['}']) {
        Some((p, h)) => if p.len() == 1 && h.len() == 1 {
            Some(h[0])
        } else {
            None
        },
        None => None,
    }
}

/// Reads one field declaration, as written after the template.
pub fn parse_field(decl: &str) -> (r: Result<Field, ResolveError>)
    ensures
        match field_decl_spec(decl@) {
            Some(f) => r matches Ok(v) && v@ == f,
            None => r matches Err(ResolveError::Parse),
        },
{
    let mut s = String::from_str("{");
    s.append(decl);
    s.append("}");
    proof {
        reveal_strlit("{");
        reveal_strlit("}");
        assert(s@ =~= seq!['{'] + decl@ + seq!['}']);
    }
    match parse(s.as_str()) {
        Ok(t) => {
            if t.parts.len() == 1 && t.holes.len() == 1 {
                let mut holes = t.holes;
                let f = holes.pop().unwrap();
                Ok(f)
            } else {
                Err(ResolveError::Parse)
            }
        },
        Err(e) => Err(e),
    }
}

/// Reads a list of field declarations, in order.
pub fn parse_fields(decls: &Vec<String>) -> (r: Result<Vec<Field>, ResolveError>)
    ensures
        (forall|i: int| 0 <= i < decls@.len() ==> #[trigger] field_decl_spec(decls@[i]@) is Some) ==> (
        r matches Ok(v) && v@.len() == decls@.len() && forall|i: int|
            0 <= i < decls@.len() ==> field_decl_spec(decls@[i]@) == Some(#[trigger] v@[i]@)),
        !(forall|i: int| 0 <= i < decls@.len() ==> #[trigger] field_decl_spec(decls@[i]@) is Some)
            ==> r matches Err(ResolveError::Parse),
{
    let mut out: Vec<Field> = Vec::new();
    let mut i: usize = 0;
    while i < decls.len()
        invariant
            i <= decls@.len(),
            out@.len() == i,
            forall|j: int| 0 <= j < i ==> field_decl_spec(decls@[j]@) == Some(#[trigger] out@[j]@),
        decreases decls@.len() - i,
    {
        match parse_field(decls[i].as_str()) {
            Ok(f) => {
                out.push(f);
            },
            Err(e) => {
                assert(field_decl_spec(decls@[i as int]@) is None);
                return Err(e);
            },
        }
        i = i + 1;
    }
    assert forall|j: int| 0 <= j < decls@.len() implies #[trigger] field_decl_spec(decls@[j]@) is Some by {
        assert(field_decl_spec(decls@[j]@) == Some(out@[j]@));
    }
    Ok(out)
}

} // verus!
