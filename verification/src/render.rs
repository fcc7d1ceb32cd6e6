use vstd::prelude::*;
use crate::model::{Array, ArrayV, Literal, LiteralV, Object, ObjectV, Property, PropertyV, Record,
    RecordV, Tuple, TupleV, Type, TypeV, view_props, view_types, lemma_view_props,
    lemma_view_types};
use crate::num::dec_render_spec;
use crate::text::push_char;
use vstd::slice::{slice_index_get, slice_subrange};

verus! {

// ===================================================================
// Quoting
// ===================================================================

/// The escape of one character inside a quoted string: quote and backslash
/// get a backslash, the named control characters their short escape, the
/// remaining control characters a four-digit hexadecimal escape, and
/// everything else stands as itself.
pub open spec fn esc_char(c: char) -> Seq<char> {
    if c == '"' {
        seq!['\\', '"']
    } else if c == '\\' {
        seq!['\\', '\\']
    } else if c == '\u{8}' {
        seq!['\\', 'b']
    } else if c == '\t' {
        seq!['\\', 't']
    } else if c == '\n' {
        seq!['\\', 'n']
    } else if c == '\u{c}' {
        seq!['\\', 'f']
    } else if c == '\r' {
        seq!['\\', 'r']
    } else if (c as u32) < 32 {
        seq!['\\', 'u', '0', '0', hex_char((c as u32 / 16) as u8), hex_char((c as u32 % 16) as u8)]
    } else {
        seq![c]
    }
}

/// A lowercase hexadecimal digit.
pub open spec fn hex_char(d: u8) -> char {
    if d < 10 {
        (((48 + d) as u8) as char)
    } else if d < 16 {
        (((87 + d) as u8) as char)
    } else {
        '0'
    }
}

pub open spec fn escape_chars(s: Seq<char>) -> Seq<char>
    decreases s,
{
    if s.len() == 0 {
        Seq::empty()
    } else {
        esc_char(s.first()) + escape_chars(s.drop_first())
    }
}

/// A quoted string literal: the escaped characters between quotes.
pub open spec fn json_quote_spec(s: Seq<char>) -> Seq<char> {
    seq!['"'] + escape_chars(s) + seq!['"']
}

proof fn lemma_escape_snoc(s: Seq<char>, c: char)
    ensures
        escape_chars(s.push(c)) == escape_chars(s) + esc_char(c),
    decreases s.len(),
{
    let p = s.push(c);
    if s.len() == 0 {
        assert(p.len() == 1);
        assert(p.first() == c);
        assert(p.drop_first() =~= Seq::<char>::empty());
        assert(escape_chars(p) == esc_char(p.first()) + escape_chars(p.drop_first()));
        assert(escape_chars(Seq::<char>::empty()) == Seq::<char>::empty());
        assert(escape_chars(p) =~= escape_chars(s) + esc_char(c));
    } else {
        assert(p.len() == s.len() + 1);
        assert(p.first() == s.first());
        assert(p.drop_first() =~= s.drop_first().push(c));
        lemma_escape_snoc(s.drop_first(), c);
        assert(escape_chars(p) == esc_char(p.first()) + escape_chars(p.drop_first()));
        assert(escape_chars(s) == esc_char(s.first()) + escape_chars(s.drop_first()));
        assert(escape_chars(p) =~= escape_chars(s) + esc_char(c));
    }
}

/// Append the escape of one character.
fn push_esc_char(out: &mut String, c: char)
    ensures
        final(out)@ == old(out)@ + esc_char(c),
{
    if c == '"' {
        push_char(out, '\\');
        push_char(out, '"');
    } else if c == '\\' {
        push_char(out, '\\');
        push_char(out, '\\');
    } else if c == '\u{8}' {
        push_char(out, '\\');
        push_char(out, 'b');
    } else if c == '\t' {
        push_char(out, '\\');
        push_char(out, 't');
    } else if c == '\n' {
        push_char(out, '\\');
        push_char(out, 'n');
    } else if c == '\u{c}' {
        push_char(out, '\\');
        push_char(out, 'f');
    } else if c == '\r' {
        push_char(out, '\\');
        push_char(out, 'r');
    } else if (c as u32) < 32 {
        push_char(out, '\\');
        push_char(out, 'u');
        push_char(out, '0');
        push_char(out, '0');
        let hi = ((c as u32) / 16) as u8;
        let lo = ((c as u32) % 16) as u8;
        if hi < 10 {
            push_char(out, (48 + hi) as char);
        } else {
            push_char(out, (87 + hi) as char);
        }
        if lo < 10 {
            push_char(out, (48 + lo) as char);
        } else {
            push_char(out, (87 + lo) as char);
        }
        proof {
            assert(out@ =~= old(out)@ + esc_char(c));
        }
    } else {
        push_char(out, c);
        proof {
            assert(out@ =~= old(out)@ + esc_char(c));
        }
    }
    proof {
        assert(out@ =~= old(out)@ + esc_char(c));
    }
}

/// Append a quoted string literal.
#[verifier::loop_isolation(false)]
fn push_quoted(out: &mut String, s: &String)
    ensures
        final(out)@ == old(out)@ + json_quote_spec(s@),
{
    push_char(out, '"');
    let ghost base = out@;
    let n = s.as_str().unicode_len();
    let mut i: usize = 0;
    while i < n
        invariant
            i <= n,
            n == s@.len(),
            out@ == base + escape_chars(s@.take(i as int)),
        decreases n - i,
    {
        let c = s.as_str().get_char(i);
        push_esc_char(out, c);
        proof {
            assert(s@.take((i + 1) as int) =~= s@.take(i as int).push(s@[i as int]));
            lemma_escape_snoc(s@.take(i as int), s@[i as int]);
        }
        i += 1;
    }
    push_char(out, '"');
    proof {
        assert(s@.take(n as int) =~= s@);
        assert(out@ =~= old(out)@ + json_quote_spec(s@));
    }
}

// ===================================================================
// Keys
// ===================================================================

pub open spec fn is_ident_start(c: char) -> bool {
    ('a' <= c && c <= 'z') || ('A' <= c && c <= 'Z') || c == '_'
}

pub open spec fn is_ident_char(c: char) -> bool {
    is_ident_start(c) || ('0' <= c && c <= '9')
}

/// Whether a property name can stand unquoted: it starts with a letter or
/// underscore and holds only letters, digits and underscores.
pub open spec fn bare_key(s: Seq<char>) -> bool {
    s.len() > 0 && is_ident_start(s[0]) && forall|i: int| 0 <= i < s.len() ==> is_ident_char(
        #[trigger] s[i],
    )
}

/// A property key: bare when it can be, quoted otherwise.
pub open spec fn key_render_spec(s: Seq<char>) -> Seq<char> {
    if bare_key(s) {
        s
    } else {
        json_quote_spec(s)
    }
}

/// Whether a name can stand as a bare identifier.
#[verifier::loop_isolation(false)]
fn is_bare(s: &String) -> (r: bool)
    ensures
        r == bare_key(s@),
{
    let n = s.as_str().unicode_len();
    if n == 0 {
        return false;
    }
    let c0 = s.as_str().get_char(0);
    let start_ok = (('a' <= c0 && c0 <= 'z') || ('A' <= c0 && c0 <= 'Z') || c0 == '_');
    if !start_ok {
        proof {
            assert(!is_ident_start(s@[0]));
        }
        return false;
    }
    let mut i: usize = 0;
    while i < n
        invariant
            i <= n,
            n == s@.len(),
            forall|l: int| 0 <= l < i ==> is_ident_char(#[trigger] s@[l]),
        decreases n - i,
    {
        let c = s.as_str().get_char(i);
        let ok = (('a' <= c && c <= 'z') || ('A' <= c && c <= 'Z') || c == '_') || ('0' <= c && c
            <= '9');
        if !ok {
            proof {
                assert(!is_ident_char(s@[i as int]));
            }
            return false;
        }
        i += 1;
    }
    true
}

/// Append a property key.
fn push_key(out: &mut String, s: &String)
    ensures
        final(out)@ == old(out)@ + key_render_spec(s@),
{
    if is_bare(s) {
        out.append(s.as_str());
    } else {
        push_quoted(out, s);
    }
}

// ===================================================================
// The rendering
// ===================================================================

/// The rendering of a literal: a quoted string, the decimal expansion of a
/// number, or a boolean keyword.
pub open spec fn lit_render_spec(l: LiteralV) -> Seq<char> {
    match l {
        LiteralV::String(s) => json_quote_spec(s),
        LiteralV::Number(d) => dec_render_spec(d),
        LiteralV::Boolean(b) => if b {
            "true"@
        } else {
            "false"@
        },
    }
}

/// Comma-free joining of rendered parts with a separator.
pub open spec fn join_chars(parts: Seq<Seq<char>>, sep: Seq<char>) -> Seq<char>
    decreases parts,
{
    if parts.len() == 0 {
        Seq::empty()
    } else if parts.len() == 1 {
        parts.first()
    } else {
        parts.first() + sep + join_chars(parts.drop_first(), sep)
    }
}

/// The textual type expression of a shape: keywords for the leaves, a
/// bracketed list for tuples, generic-array syntax for arrays, braced
/// member lists for objects, index-signature syntax for records,
/// parenthesized joins for intersections and unions (the bottom keyword
/// when empty), and the raw name for a custom shape.
pub open spec fn render_spec(t: TypeV) -> Seq<char>
    decreases t, 2int,
{
    match t {
        TypeV::String => "string"@,
        TypeV::Number => "number"@,
        TypeV::Boolean => "boolean"@,
        TypeV::Null => "null"@,
        TypeV::Undefined => "undefined"@,
        TypeV::Never => "never"@,
        TypeV::Literal(l) => lit_render_spec(l),
        TypeV::Tuple(tp) => "["@ + join_chars(renders_spec(tp.items), ", "@) + "]"@,
        TypeV::Array(a) => "Array<"@ + render_spec(*a.item) + ">"@,
        TypeV::Object(o) => "{ "@ + join_chars(prop_renders_spec(o.properties), " "@) + " }"@,
        TypeV::Record(r) => "{ [key: "@ + render_spec(*r.key) + "]: "@ + render_spec(*r.value)
            + " }"@,
        TypeV::And(ts) => {
            if ts.len() == 0 {
                "never"@
            } else {
                "("@ + join_chars(renders_spec(ts), " & "@) + ")"@
            }
        },
        TypeV::Or(ts) => {
            if ts.len() == 0 {
                "never"@
            } else {
                "("@ + join_chars(renders_spec(ts), " | "@) + ")"@
            }
        },
        TypeV::Custom(s) => s,
    }
}

/// The renderings of a list of shapes, elementwise.
pub open spec fn renders_spec(ts: Seq<TypeV>) -> Seq<Seq<char>>
    decreases ts, 3int,
{
    if ts.len() == 0 {
        Seq::empty()
    } else {
        seq![render_spec(ts.first())] + renders_spec(ts.drop_first())
    }
}

/// One object member: `readonly` when marked, the key, `?` when optional,
/// then the member's own rendering.
pub open spec fn prop_render_spec(name: Seq<char>, p: PropertyV) -> Seq<char>
    decreases p, 2int,
{
    (if p.readonly {
        "readonly "@
    } else {
        Seq::<char>::empty()
    }) + key_render_spec(name) + (if p.optional {
        "?"@
    } else {
        Seq::<char>::empty()
    }) + ": "@ + render_spec(p.ty) + ";"@
}

pub open spec fn prop_renders_spec(ps: Seq<(Seq<char>, PropertyV)>) -> Seq<Seq<char>>
    decreases ps, 3int,
{
    if ps.len() == 0 {
        Seq::empty()
    } else {
        seq![prop_render_spec(ps.first().0, ps.first().1)] + prop_renders_spec(ps.drop_first())
    }
}

/// Render a shape as a type expression.
pub fn render_type(t: &Type) -> (r: String)
    ensures
        r@ == render_spec(t.view()),
    decreases t, 2int,
{
    match t {
        Type::String => String::from_str("string"),
        Type::Number => String::from_str("number"),
        Type::Boolean => String::from_str("boolean"),
        Type::Null => String::from_str("null"),
        Type::Undefined => String::from_str("undefined"),
        Type::Never => String::from_str("never"),
        Type::Literal(l) => render_literal(l),
        Type::Tuple(tp) => render_tuple(tp),
        Type::Array(a) => render_array(a),
        Type::Object(o) => render_object(o),
        Type::Record(rc) => render_record(rc),
        Type::And(ts) => {
            if ts.len() == 0 {
                String::from_str("never")
            } else {
                proof {
                    assert(decreases_to!(*t => *ts));
                    lemma_view_types(ts@);
                }
                let mut out = String::from_str("(");
                let inner = render_join(ts.as_slice(), " & ");
                out.append(inner.as_str());
                out.append(")");
                proof {
                    assert(out@ =~= render_spec(t.view()));
                }
                out
            }
        },
        Type::Or(ts) => {
            if ts.len() == 0 {
                String::from_str("never")
            } else {
                proof {
                    assert(decreases_to!(*t => *ts));
                    lemma_view_types(ts@);
                }
                let mut out = String::from_str("(");
                let inner = render_join(ts.as_slice(), " | ");
                out.append(inner.as_str());
                out.append(")");
                proof {
                    assert(out@ =~= render_spec(t.view()));
                }
                out
            }
        },
        Type::Custom(s) => s.clone(),
    }
}

/// Render a literal.
pub fn render_literal(l: &Literal) -> (r: String)
    ensures
        r@ == lit_render_spec(l.view()),
{
    match l {
        Literal::String(s) => {
            let mut out = String::new();
            push_quoted(&mut out, s);
            proof {
                assert(out@ =~= json_quote_spec(s@));
            }
            out
        },
        Literal::Number(d) => d.to_decimal_string(),
        Literal::Boolean(b) => {
            if *b {
                String::from_str("true")
            } else {
                String::from_str("false")
            }
        },
    }
}

/// Render the members of a list of shapes, joined by the separator.
fn render_join(ts: &[Type], sep: &str) -> (r: String)
    ensures
        r@ == join_chars(renders_spec(view_types(ts@)), sep@),
    decreases ts@, 1int,
{
    if ts.len() == 0 {
        let r = String::new();
        proof {
            assert(view_types(ts@) =~= Seq::<TypeV>::empty());
            assert(renders_spec(view_types(ts@)) =~= Seq::<Seq<char>>::empty());
        }
        r
    } else {
        proof {
            assert(decreases_to!(ts@ => ts@[0]));
            assert(view_types(ts@).first() == ts@[0].view());
            assert(view_types(ts@).drop_first() =~= view_types(ts@.drop_first())) by {
                lemma_view_types(ts@);
                lemma_view_types(ts@.drop_first());
            }
            assert(renders_spec(view_types(ts@)).first() == render_spec(ts@[0].view()));
            assert(renders_spec(view_types(ts@)).drop_first() =~= renders_spec(
                view_types(ts@).drop_first(),
            ));
        }
        let mut out = render_type(slice_index_get(ts, 0));
        if ts.len() == 1 {
            proof {
                assert(renders_spec(view_types(ts@)).len() == 1) by {
                    lemma_renders_len(view_types(ts@));
                }
            }
            out
        } else {
            let rest_slice = slice_subrange(ts, 1, ts.len());
            proof {
                assert(rest_slice@ =~= ts@.drop_first());
                assert(renders_spec(view_types(ts@)).len() == view_types(ts@).len()) by {
                    lemma_renders_len(view_types(ts@));
                }
            }
            out.append(sep);
            let rest = render_join(rest_slice, sep);
            out.append(rest.as_str());
            proof {
                assert(out@ =~= join_chars(renders_spec(view_types(ts@)), sep@));
            }
            out
        }
    }
}

proof fn lemma_renders_len(ts: Seq<TypeV>)
    ensures
        renders_spec(ts).len() == ts.len(),
    decreases ts,
{
    if ts.len() > 0 {
        lemma_renders_len(ts.drop_first());
    }
}

proof fn lemma_prop_renders_len(ps: Seq<(Seq<char>, PropertyV)>)
    ensures
        prop_renders_spec(ps).len() == ps.len(),
    decreases ps,
{
    if ps.len() > 0 {
        lemma_prop_renders_len(ps.drop_first());
    }
}

/// Render a tuple.
pub fn render_tuple(tp: &Tuple) -> (r: String)
    ensures
        r@ == render_spec(TypeV::Tuple(tp.view())),
    decreases tp, 1int,
{
    proof {
        assert(decreases_to!(*tp => tp.items));
        lemma_view_types(tp.items@);
    }
    let mut out = String::from_str("[");
    let inner = render_join(tp.items.as_slice(), ", ");
    out.append(inner.as_str());
    out.append("]");
    proof {
        assert(out@ =~= render_spec(TypeV::Tuple(tp.view())));
    }
    out
}

/// Render an array.
pub fn render_array(a: &Array) -> (r: String)
    ensures
        r@ == render_spec(TypeV::Array(a.view())),
    decreases a, 1int,
{
    let mut out = String::from_str("Array<");
    let inner = render_type(&a.item);
    out.append(inner.as_str());
    out.append(">");
    proof {
        assert(out@ =~= render_spec(TypeV::Array(a.view())));
    }
    out
}

/// Render a record's index signature.
pub fn render_record(rc: &Record) -> (r: String)
    ensures
        r@ == render_spec(TypeV::Record(rc.view())),
    decreases rc, 1int,
{
    let mut out = String::from_str("{ [key: ");
    let k = render_type(&rc.key);
    out.append(k.as_str());
    out.append("]: ");
    let v = render_type(&rc.value);
    out.append(v.as_str());
    out.append(" }");
    proof {
        assert(out@ =~= render_spec(TypeV::Record(rc.view())));
    }
    out
}

/// Render an object's member list.
pub fn render_object(o: &Object) -> (r: String)
    ensures
        r@ == render_spec(TypeV::Object(o.view())),
    decreases o, 1int,
{
    proof {
        assert(decreases_to!(*o => o.properties));
        lemma_view_props(o.properties@);
    }
    let mut out = String::from_str("{ ");
    let inner = render_props_join(o.properties.as_slice());
    out.append(inner.as_str());
    out.append(" }");
    proof {
        assert(out@ =~= render_spec(TypeV::Object(o.view())));
    }
    out
}

/// Render the members of an object, joined by single spaces.
fn render_props_join(ps: &[(String, Property)]) -> (r: String)
    ensures
        r@ == join_chars(prop_renders_spec(view_props(ps@)), " "@),
    decreases ps@, 0int,
{
    if ps.len() == 0 {
        let r = String::new();
        proof {
            assert(view_props(ps@) =~= Seq::<(Seq<char>, PropertyV)>::empty());
            assert(prop_renders_spec(view_props(ps@)) =~= Seq::<Seq<char>>::empty());
        }
        r
    } else {
        proof {
            assert(decreases_to!(ps@ => ps@[0]));
            assert(decreases_to!(ps@[0] => ps@[0].1));
            assert(view_props(ps@).first() == (ps@[0].0@, ps@[0].1.view()));
            assert(view_props(ps@).drop_first() =~= view_props(ps@.drop_first())) by {
                lemma_view_props(ps@);
                lemma_view_props(ps@.drop_first());
            }
            assert(prop_renders_spec(view_props(ps@)).first() == prop_render_spec(
                ps@[0].0@,
                ps@[0].1.view(),
            ));
            assert(prop_renders_spec(view_props(ps@)).drop_first() =~= prop_renders_spec(
                view_props(ps@).drop_first(),
            ));
        }
        let pair = slice_index_get(ps, 0);
        let mut out = String::new();
        if pair.1.readonly {
            out.append("readonly ");
        }
        push_key(&mut out, &pair.0);
        if pair.1.optional {
            out.append("?");
        }
        out.append(": ");
        let ty = render_type(&pair.1.ty);
        out.append(ty.as_str());
        out.append(";");
        proof {
            assert(out@ =~= prop_render_spec(ps@[0].0@, ps@[0].1.view()));
        }
        if ps.len() == 1 {
            proof {
                lemma_prop_renders_len(view_props(ps@));
            }
            out
        } else {
            let rest_slice = slice_subrange(ps, 1, ps.len());
            proof {
                assert(rest_slice@ =~= ps@.drop_first());
                lemma_prop_renders_len(view_props(ps@));
            }
            out.append(" ");
            let rest = render_props_join(rest_slice);
            out.append(rest.as_str());
            proof {
                assert(out@ =~= join_chars(prop_renders_spec(view_props(ps@)), " "@));
            }
            out
        }
    }
}

// ===================================================================
// The trait
// ===================================================================

/// Rendering as a textual type expression.
pub trait ToTypescript {
    spec fn ts_spec(&self) -> Seq<char>;

    fn to_typescript(&self) -> (r: String)
        ensures
            r@ == self.ts_spec(),
    ;
}

impl ToTypescript for Type {
    open spec fn ts_spec(&self) -> Seq<char> {
        render_spec(self.view())
    }

    fn to_typescript(&self) -> (r: String)
        ensures
            r@ == self.ts_spec(),
    {
        render_type(self)
    }
}

impl ToTypescript for Literal {
    open spec fn ts_spec(&self) -> Seq<char> {
        lit_render_spec(self.view())
    }

    fn to_typescript(&self) -> (r: String)
        ensures
            r@ == self.ts_spec(),
    {
        render_literal(self)
    }
}

impl ToTypescript for Tuple {
    open spec fn ts_spec(&self) -> Seq<char> {
        render_spec(TypeV::Tuple(self.view()))
    }

    fn to_typescript(&self) -> (r: String)
        ensures
            r@ == self.ts_spec(),
    {
        render_tuple(self)
    }
}

impl ToTypescript for Array {
    open spec fn ts_spec(&self) -> Seq<char> {
        render_spec(TypeV::Array(self.view()))
    }

    fn to_typescript(&self) -> (r: String)
        ensures
            r@ == self.ts_spec(),
    {
        render_array(self)
    }
}

impl ToTypescript for Object {
    open spec fn ts_spec(&self) -> Seq<char> {
        render_spec(TypeV::Object(self.view()))
    }

    fn to_typescript(&self) -> (r: String)
        ensures
            r@ == self.ts_spec(),
    {
        render_object(self)
    }
}

impl ToTypescript for Record {
    open spec fn ts_spec(&self) -> Seq<char> {
        render_spec(TypeV::Record(self.view()))
    }

    fn to_typescript(&self) -> (r: String)
        ensures
            r@ == self.ts_spec(),
    {
        render_record(self)
    }
}

} // verus!
