//! How the symbol table is printed: one row per symbol, six columns of
//! seventeen characters, the values spread over as many lines as they need.

use vstd::prelude::*;
use crate::ast::{TypeValue, float_view};
use crate::quadruplets::{float_text, push_float};
use crate::semantics::byte_len;
use crate::symbol_table::{Symbol, Types};
use crate::text::{
    append_str, cap, capped_byte_len, chars_of, int_text, lemma_encode_concat, lemma_encode_empty,
    nat_text, push_char, push_decimal, push_int, string_of,
};

verus! {

/// The width of a column.
pub open spec fn width() -> nat {
    17
}

/// At most the first seventeen characters of `s`.
pub open spec fn cut(s: Seq<char>) -> Seq<char> {
    if s.len() <= width() {
        s
    } else {
        s.take(width() as int)
    }
}

/// `s` followed by spaces up to seventeen characters.
pub open spec fn pad(s: Seq<char>) -> Seq<char> {
    if s.len() >= width() {
        s
    } else {
        s + Seq::new((width() - s.len()) as nat, |k: int| ' ')
    }
}

pub open spec fn type_cell(t: Option<Types>) -> Seq<char> {
    match t {
        None => "N/A"@,
        Some(Types::Integer) => "INTEGER"@,
        Some(Types::Float) => "FLOAT"@,
        Some(Types::Char) => "CHAR"@,
        Some(Types::Array(..)) => Seq::empty(),
    }
}

pub open spec fn size_cell(s: Option<i16>) -> Seq<char> {
    match s {
        None => "N/A"@,
        Some(v) => cut(int_text(v as int)),
    }
}

pub open spec fn constant_cell(c: Option<bool>) -> Seq<char> {
    match c {
        None => "N/A"@,
        Some(true) => "true"@,
        Some(false) => "false"@,
    }
}

pub open spec fn address_cell(a: Option<usize>) -> Seq<char> {
    match a {
        None => "N/A"@,
        Some(v) => cut(nat_text(v as nat)),
    }
}

/// One value followed by `, `; a character in quotes, the null character as
/// `'\0'`; nothing for an array.
pub open spec fn value_piece(v: Option<TypeValue>) -> Seq<char> {
    match v {
        None => "N/A, "@,
        Some(TypeValue::Integer((i, _))) => int_text(i as int) + ", "@,
        Some(TypeValue::Float((f, _))) => float_text(float_view(f)) + ", "@,
        Some(TypeValue::Char((c, _))) => if c == '\0' {
            "'\\0', "@
        } else {
            "'"@ + seq![c] + "', "@
        },
        Some(TypeValue::Array(_)) => Seq::empty(),
    }
}

/// The pieces of `vs` laid out in lines: the lines filled so far and the one
/// being filled.  A piece goes on the current line unless the line would then
/// pass seventeen bytes.
pub open spec fn lay_out(vs: Seq<Option<TypeValue>>) -> (Seq<Seq<char>>, Seq<char>)
    decreases vs.len(),
{
    if vs.len() == 0 {
        (Seq::empty(), Seq::empty())
    } else {
        let (lines, cur) = lay_out(vs.drop_last());
        let p = value_piece(vs.last());
        if byte_len(cur) + byte_len(p) > width() {
            (lines.push(cur), p)
        } else {
            (lines, cur + p)
        }
    }
}

/// The values can be printed: the last line is not empty (its trailing
/// `, ` is dropped).
pub open spec fn printable(vs: Seq<Option<TypeValue>>) -> bool {
    vs.len() == 0 || lay_out(vs).1.len() > 0
}

/// The lines of the value column.
pub open spec fn value_lines(vs: Seq<Option<TypeValue>>) -> Seq<Seq<char>> {
    if vs.len() == 0 {
        seq!["N/A"@]
    } else {
        let (lines, cur) = lay_out(vs);
        lines.push(cur.take(cur.len() - 2))
    }
}

pub open spec fn table_line(
    a: Seq<char>,
    b: Seq<char>,
    c: Seq<char>,
    d: Seq<char>,
    e: Seq<char>,
    f: Seq<char>,
) -> Seq<char> {
    "| "@ + pad(a) + " | "@ + pad(b) + " | "@ + pad(c) + " | "@ + pad(d) + " | "@ + pad(e) + " | "@
        + pad(f) + " |\n"@
}

/// The continuation lines of the value column, after the first.
pub open spec fn more_lines(ls: Seq<Seq<char>>) -> Seq<char>
    decreases ls.len(),
{
    if ls.len() == 0 {
        Seq::empty()
    } else {
        more_lines(ls.drop_last()) + table_line(
            Seq::empty(),
            Seq::empty(),
            Seq::empty(),
            Seq::empty(),
            Seq::empty(),
            ls.last(),
        )
    }
}

/// The row of a symbol.
pub open spec fn row_text(s: Symbol) -> Seq<char> {
    let vl = value_lines(s.Value@);
    table_line(
        cut(s.Identifier@),
        type_cell(s.Type),
        size_cell(s.size),
        constant_cell(s.Is_Constant),
        address_cell(s.Address),
        vl[0],
    ) + more_lines(vl.drop_first())
}

/// The line between rows.
pub fn table_border() -> (s: &'static str)
    ensures
        s@ == "+-------------------+-------------------+-------------------+-------------------+-------------------+-------------------+"@,
{
    "+-------------------+-------------------+-------------------+-------------------+-------------------+-------------------+"
}

/// The column titles.
pub fn table_header() -> (s: &'static str)
    ensures
        s@ == "| Identifier        | Type              | Size              | Constant          | Address           | Value             |"@,
{
    "| Identifier        | Type              | Size              | Constant          | Address           | Value             |"
}

/// The first seventeen characters of `s` (all of it when shorter).
fn cut_string(s: &str) -> (r: String)
    ensures
        r@ == cut(s@),
{
    let cs = chars_of(s);
    if cs.len() <= 17 {
        string_of(&cs, 0, cs.len())
    } else {
        string_of(&cs, 0, 17)
    }
}

/// Appends `cell` padded with spaces to seventeen characters.
fn push_padded(out: &mut String, cell: &str)
    ensures
        final(out)@ == old(out)@ + pad(cell@),
{
    append_str(out, cell);
    let n = chars_of(cell).len();
    let ghost before = out@;
    let mut k = n;
    while k < 17
        invariant
            n == cell@.len(),
            n <= k <= 17 || (n > 17 && k == n),
            out@ == before + Seq::new((k - n) as nat, |j: int| ' '),
        decreases 17 - k,
    {
        push_char(out, ' ');
        k = k + 1;
        assert(out@ =~= before + Seq::new((k - n) as nat, |j: int| ' '));
    }
    assert(out@ =~= old(out)@ + pad(cell@));
}

fn push_line(out: &mut String, a: &str, b: &str, c: &str, d: &str, e: &str, f: &str)
    ensures
        final(out)@ == old(out)@ + table_line(a@, b@, c@, d@, e@, f@),
{
    let ghost s0 = out@;
    append_str(out, "| ");
    push_padded(out, a);
    append_str(out, " | ");
    push_padded(out, b);
    let ghost s1 = out@;
    assert(s1 =~= s0 + ("| "@ + pad(a@) + " | "@ + pad(b@)));
    append_str(out, " | ");
    push_padded(out, c);
    append_str(out, " | ");
    push_padded(out, d);
    let ghost s2 = out@;
    assert(s2 =~= s1 + (" | "@ + pad(c@) + " | "@ + pad(d@)));
    append_str(out, " | ");
    push_padded(out, e);
    append_str(out, " | ");
    push_padded(out, f);
    append_str(out, " |\n");
    assert(out@ =~= s2 + (" | "@ + pad(e@) + " | "@ + pad(f@) + " |\n"@));
    assert(out@ =~= s0 + table_line(a@, b@, c@, d@, e@, f@));
}

fn value_piece_string(v: &Option<TypeValue>) -> (s: String)
    ensures
        s@ == value_piece(*v),
{
    let mut s = String::new();
    match v {
        None => append_str(&mut s, "N/A, "),
        Some(TypeValue::Integer((i, _))) => {
            push_int(&mut s, *i);
            append_str(&mut s, ", ");
        },
        Some(TypeValue::Float((f, _))) => {
            push_float(&mut s, f);
            append_str(&mut s, ", ");
        },
        Some(TypeValue::Char((c, _))) => {
            if *c == '\0' {
                append_str(&mut s, "'\\0', ");
            } else {
                append_str(&mut s, "'");
                push_char(&mut s, *c);
                append_str(&mut s, "', ");
            }
        },
        Some(TypeValue::Array(_)) => {},
    }
    assert(s@ =~= value_piece(*v));
    s
}

proof fn lemma_piece_len(v: Option<TypeValue>)
    ensures
        value_piece(v).len() == 0 || value_piece(v).len() >= 2,
{
    reveal_strlit(", ");
    reveal_strlit("N/A, ");
    reveal_strlit("', ");
    reveal_strlit("'\\0', ");
}

proof fn lemma_lay_out_tail(vs: Seq<Option<TypeValue>>)
    ensures
        lay_out(vs).1.len() == 0 || lay_out(vs).1.len() >= 2,
    decreases vs.len(),
{
    if vs.len() > 0 {
        lemma_lay_out_tail(vs.drop_last());
        lemma_piece_len(vs.last());
    }
}

/// Values without an array among them can always be printed: each of them
/// gives a piece that ends with `, `, so the last line is never empty.
pub proof fn lemma_scalars_printable(vs: Seq<Option<TypeValue>>)
    requires
        forall|i: int| 0 <= i < vs.len() ==> !(#[trigger] vs[i] matches Some(TypeValue::Array(_))),
    ensures
        printable(vs),
{
    if vs.len() > 0 {
        reveal_strlit(", ");
        reveal_strlit("N/A, ");
        reveal_strlit("', ");
        reveal_strlit("'\\0', ");
        assert(!(vs[vs.len() - 1] matches Some(TypeValue::Array(_))));
        assert(value_piece(vs.last()).len() >= 2);
    }
}

/// The lines of the value column of `vs`.
fn value_column(vs: &Vec<Option<TypeValue>>) -> (r: Vec<String>)
    requires
        printable(vs@),
    ensures
        r@.map_values(|c: String| c@) == value_lines(vs@),
{
    let mut lines: Vec<String> = Vec::new();
    if vs.len() == 0 {
        let mut na = String::new();
        append_str(&mut na, "N/A");
        lines.push(na);
        assert(lines@.map_values(|c: String| c@) =~= value_lines(vs@));
        return lines;
    }
    let mut cur = String::new();
    let mut i: usize = 0;
    assert(vs@.take(0) =~= Seq::<Option<TypeValue>>::empty());
    while i < vs.len()
        invariant
            i <= vs@.len(),
            (lines@.map_values(|c: String| c@), cur@) == lay_out(vs@.take(i as int)),
        decreases vs@.len() - i,
    {
        let piece = value_piece_string(&vs[i]);
        let cur_len = capped_byte_len(cur.as_str());
        let piece_len = capped_byte_len(piece.as_str());
        proof {
            assert(vs@.take(i + 1).drop_last() =~= vs@.take(i as int));
        }
        if cur_len + piece_len > 17 {
            let ghost before = lines@;
            lines.push(cur);
            cur = piece;
            assert(lines@.map_values(|c: String| c@) =~= before.map_values(|c: String| c@).push(lay_out(vs@.take(i as int)).1));
        } else {
            append_str(&mut cur, piece.as_str());
        }
        i = i + 1;
    }
    assert(vs@.take(i as int) =~= vs@);
    proof {
        lemma_lay_out_tail(vs@);
    }
    let cs = chars_of(cur.as_str());
    let last = string_of(&cs, 0, cs.len() - 2);
    let ghost before = lines@;
    lines.push(last);
    assert(lines@.map_values(|c: String| c@) =~= before.map_values(|c: String| c@).push(cur@.take(cur@.len() - 2)));
    lines
}

impl Symbol {
    /// Whether the row of this symbol can be printed (see `printable`).
    pub fn printable(&self) -> (b: bool)
        ensures
            b == printable(self.Value@),
    {
        if self.Value.len() == 0 {
            return true;
        }
        let mut cur_nonempty = false;
        let mut cur_len: usize = 0;
        let mut i: usize = 0;
        assert(self.Value@.take(0) =~= Seq::<Option<TypeValue>>::empty());
        while i < self.Value.len()
            invariant
                i <= self.Value@.len(),
                cur_len == cap(byte_len(lay_out(self.Value@.take(i as int)).1)),
                cur_nonempty == (lay_out(self.Value@.take(i as int)).1.len() > 0),
            decreases self.Value@.len() - i,
        {
            let piece = value_piece_string(&self.Value[i]);
            let piece_len = capped_byte_len(piece.as_str());
            proof {
                assert(self.Value@.take(i + 1).drop_last() =~= self.Value@.take(i as int));
                lemma_encode_concat(lay_out(self.Value@.take(i as int)).1, piece@);
                lemma_encode_empty(piece@);
            }
            if cur_len + piece_len > 17 {
                cur_len = piece_len;
                cur_nonempty = piece_len > 0;
            } else {
                cur_len = cur_len + piece_len;
                cur_nonempty = cur_nonempty || piece_len > 0;
            }
            i = i + 1;
        }
        assert(self.Value@.take(i as int) =~= self.Value@);
        cur_nonempty
    }

    /// The row of this symbol in the printed table: identifier, type, size,
    /// constness, address and value, each cut to seventeen characters except
    /// the value, which is spread over further lines when it is longer.
    pub fn row(&self) -> (s: String)
        requires
            printable(self.Value@),
        ensures
            s@ == row_text(*self),
    {
        let values = value_column(&self.Value);
        let ghost vl = value_lines(self.Value@);
        assert(values@.len() == vl.len());
        let ident = cut_string(self.Identifier.as_str());
        let mut t = String::new();
        match &self.Type {
            None => append_str(&mut t, "N/A"),
            Some(Types::Integer) => append_str(&mut t, "INTEGER"),
            Some(Types::Float) => append_str(&mut t, "FLOAT"),
            Some(Types::Char) => append_str(&mut t, "CHAR"),
            Some(Types::Array(..)) => {},
        }
        assert(t@ =~= type_cell(self.Type));
        let z = match self.size {
            None => {
                let mut z = String::new();
                append_str(&mut z, "N/A");
                z
            },
            Some(v) => {
                let mut n = String::new();
                push_int(&mut n, v);
                cut_string(n.as_str())
            },
        };
        let mut c = String::new();
        match self.Is_Constant {
            None => append_str(&mut c, "N/A"),
            Some(true) => append_str(&mut c, "true"),
            Some(false) => append_str(&mut c, "false"),
        }
        let a = match self.Address {
            None => {
                let mut a = String::new();
                append_str(&mut a, "N/A");
                a
            },
            Some(v) => {
                let mut n = String::new();
                push_decimal(&mut n, v);
                cut_string(n.as_str())
            },
        };
        let mut out = String::new();
        push_line(&mut out, ident.as_str(), t.as_str(), z.as_str(), c.as_str(), a.as_str(), values[0].as_str());
        let ghost first = out@;
        let mut k: usize = 1;
        assert(vl.drop_first().take(0) =~= Seq::<Seq<char>>::empty());
        assert(first =~= table_line(
            cut(self.Identifier@),
            type_cell(self.Type),
            size_cell(self.size),
            constant_cell(self.Is_Constant),
            address_cell(self.Address),
            vl[0],
        ) + more_lines(vl.drop_first().take(0)));
        while k < values.len()
            invariant
                1 <= k <= values@.len(),
                values@.map_values(|c: String| c@) == vl,
                vl.len() >= 1,
                out@ == first + more_lines(vl.drop_first().take(k - 1)),
            decreases values@.len() - k,
        {
            push_line(&mut out, "", "", "", "", "", values[k].as_str());
            proof {
                let t = vl.drop_first().take(k as int);
                assert(t.drop_last() =~= vl.drop_first().take(k - 1));
                assert(t.last() == values@[k as int]@);
                assert(""@ =~= Seq::<char>::empty()) by {
                    reveal_strlit("");
                }
            }
            assert(out@ =~= first + more_lines(vl.drop_first().take(k as int)));
            k = k + 1;
        }
        assert(vl.drop_first().take(k - 1) =~= vl.drop_first());
        out
    }
}

} // verus!
