use vstd::prelude::*;

use crate::memory::{live, Heap, MemoryManager};
use crate::text::push_char;
use crate::value::{Object, ObjectType, VmData};

verus! {

broadcast use vstd::seq::group_seq_axioms;

/// A piece of printed output: text, or a float (by its IEEE-754 bits) that
/// the caller renders.
#[derive(Debug)]
pub enum Piece {
    Text(String),
    Float(u64),
}

/// The mathematical view of a [`Piece`].
pub enum PieceView {
    Text(Seq<char>),
    Float(u64),
}

impl View for Piece {
    type V = PieceView;

    open spec fn view(&self) -> PieceView {
        match self {
            Piece::Text(s) => PieceView::Text(s@),
            Piece::Float(b) => PieceView::Float(*b),
        }
    }
}

/// The views of a sequence of pieces.
pub open spec fn pieces_view(v: Seq<Piece>) -> Seq<PieceView> {
    v.map_values(|p: Piece| p@)
}

/// The decimal digit for `d` (below ten).
pub open spec fn digit(d: nat) -> char {
    ((48 + d) as u8) as char
}

/// The decimal digits of `n`, most significant first.
pub open spec fn nat_text(n: nat) -> Seq<char>
    decreases n,
{
    if n < 10 {
        seq![digit(n)]
    } else {
        nat_text(n / 10).push(digit(n % 10))
    }
}

/// The decimal text of `i`: a minus sign before the digits when negative.
pub open spec fn int_text(i: int) -> Seq<char> {
    if i < 0 {
        seq!['-'] + nat_text((-i) as nat)
    } else {
        nat_text(i as nat)
    }
}

/// The decimal digits of `n`.
pub fn nat_digits(n: u64) -> (res: String)
    ensures
        res@ == nat_text(n as nat),
    decreases n,
{
    if n < 10 {
        let mut s = String::new();
        push_char(&mut s, ((48 + n) as u8) as char);
        assert(s@ =~= seq![digit(n as nat)]);
        s
    } else {
        let mut s = nat_digits(n / 10);
        push_char(&mut s, ((48 + n % 10) as u8) as char);
        s
    }
}

/// Appends the characters of `t`.
pub fn append(s: &mut String, t: &str)
    ensures
        final(s)@ == old(s)@ + t@,
{
    let cs = crate::text::chars_of(t);
    let mut i: usize = 0;
    while i < cs.len()
        invariant
            i <= cs.len(),
            cs@ == t@,
            s@ == old(s)@ + cs@.subrange(0, i as int),
        decreases cs.len() - i,
    {
        push_char(s, cs[i]);
        i += 1;
        assert(s@ =~= old(s)@ + cs@.subrange(0, i as int));
    }
    assert(cs@.subrange(0, cs.len() as int) =~= cs@);
}

/// The decimal text of `i`.
pub fn int_digits(i: i64) -> (res: String)
    ensures
        res@ == int_text(i as int),
{
    if i < 0 {
        let m = (-(i as i128)) as u64;
        let d = nat_digits(m);
        let mut s = String::new();
        push_char(&mut s, '-');
        append(&mut s, d.as_str());
        assert(s@ =~= seq!['-'] + nat_text((-i) as nat));
        s
    } else {
        nat_digits(i as u64)
    }
}

/// A single text piece.
pub open spec fn text(s: Seq<char>) -> Seq<PieceView> {
    seq![PieceView::Text(s)]
}

/// How a value prints on its own (`Display`): integers and addresses in
/// decimal, floats left to the caller, `Nil` as `None`.
pub open spec fn data_text(v: VmData) -> Seq<PieceView> {
    match v {
        VmData::Int(i) => text(int_text(i as int)),
        VmData::Float(b) => seq![PieceView::Float(b)],
        VmData::Bool(b) => text(if b { "true"@ } else { "false"@ }),
        VmData::Char(c) => text(seq![c]),
        VmData::Function(f) => text("Function("@) + text(nat_text(f as nat)) + text(")"@),
        VmData::Object(i) => text("Object("@) + text(nat_text(i as nat)) + text(")"@),
        VmData::StackAddress(a) => text("StackAddress("@) + text(nat_text(a as nat)) + text(")"@),
        VmData::Nil => text("None"@),
    }
}

/// How object `i` prints at nesting depth `d`: `...` beyond depth three,
/// `None` for a free or missing slot.
pub open spec fn shown(h: Heap, i: int, d: nat) -> Seq<PieceView>
    decreases 4 - d, 2nat, 0nat,
{
    if d > 3 {
        text("..."@)
    } else if !live(h, i) {
        text("None"@)
    } else {
        let o = h[i]->0.object;
        match o.object_type {
            ObjectType::List => text("["@) + items(h, o.data@, d) + text("]"@),
            ObjectType::Struct(name) => text(name@) + text(": {"@) + fields(h, o.table@, o.data@, d) + text("}"@),
            ObjectType::String => text(Object::chars_in(o.data@)),
            ObjectType::Closure(p) => text("<Closure: "@) + text(nat_text(p as nat)) + text(", env: ["@)
                + items(h, o.data@, d) + text("]>"@),
            ObjectType::Tuple => text("("@) + items(h, o.data@, d) + text(")"@),
            ObjectType::Enum { name, tag } => text("Enum("@) + text(name@) + text(": "@) + text(int_text(tag as int))
                + text(", ["@) + items(h, o.data@, d) + text("])"@),
        }
    }
}

/// How an element inside an object at depth `d` prints: objects one level
/// deeper, a reference past the heap as `Invalid Heap Object`.
pub open spec fn elem(h: Heap, v: VmData, d: nat) -> Seq<PieceView>
    decreases 4 - d, 0nat, 0nat,
{
    match v {
        VmData::Object(j) => if j < h.len() {
            if d <= 3 {
                shown(h, j as int, d + 1)
            } else {
                text("..."@)
            }
        } else {
            text("Invalid Heap Object"@)
        },
        _ => data_text(v),
    }
}

/// The elements, separated by `, `.
pub open spec fn items(h: Heap, data: Seq<VmData>, d: nat) -> Seq<PieceView>
    decreases 4 - d, 1nat, data.len(),
{
    if data.len() == 0 {
        Seq::empty()
    } else if data.len() == 1 {
        elem(h, data[0], d)
    } else {
        items(h, data.drop_last(), d) + text(", "@) + elem(h, data.last(), d)
    }
}

/// The struct fields in table order, each `name: element`, separated by `, `.
pub open spec fn fields(h: Heap, table: Seq<(String, usize)>, data: Seq<VmData>, d: nat) -> Seq<PieceView>
    decreases 4 - d, 1nat, table.len(),
{
    if table.len() == 0 {
        Seq::empty()
    } else {
        let e = table.last();
        let one = text(e.0@) + text(": "@) + elem(h, data[e.1 as int], d);
        if table.len() == 1 {
            one
        } else {
            fields(h, table.drop_last(), data, d) + text(", "@) + one
        }
    }
}

/// Every struct printed from object `i` at depth `d` maps its fields inside
/// its data.
pub open spec fn printable(h: Heap, i: int, d: nat) -> bool
    decreases 4 - d, 2nat, 0nat,
{
    if d > 3 || !live(h, i) {
        true
    } else {
        let o = h[i]->0.object;
        &&& (o.object_type is Struct ==> forall|k: int| 0 <= k < o.table@.len() ==> (#[trigger] o.table@[k]).1 < o.data@.len())
        &&& all_printable(h, o.data@, d)
    }
}

/// Every object element of `data` is printable one level deeper.
pub open spec fn all_printable(h: Heap, data: Seq<VmData>, d: nat) -> bool
    decreases 4 - d, 1nat, data.len(),
{
    if data.len() == 0 {
        true
    } else {
        &&& all_printable(h, data.drop_last(), d)
        &&& match data.last() {
            VmData::Object(j) => d <= 3 ==> printable(h, j as int, d + 1),
            _ => true,
        }
    }
}

/// Appends one text piece.
pub fn add_text(out: &mut Vec<Piece>, s: String)
    ensures
        pieces_view(final(out)@) == pieces_view(old(out)@) + text(s@),
{
    let ghost s0 = s@;
    out.push(Piece::Text(s));
    assert(pieces_view(out@) =~= pieces_view(old(out)@) + text(s0));
}

/// Appends the pieces of `more`.
pub fn add_all(out: &mut Vec<Piece>, more: Vec<Piece>)
    ensures
        pieces_view(final(out)@) == pieces_view(old(out)@) + pieces_view(more@),
{
    let mut more = more;
    let mut rev: Vec<Piece> = Vec::new();
    let ghost m0 = more@;
    while more.len() > 0
        invariant
            more@ == m0.subrange(0, more@.len() as int),
            rev@.len() == m0.len() - more@.len(),
            forall|k: int| 0 <= k < rev@.len() ==> #[trigger] rev@[k] == m0[m0.len() - 1 - k],
        decreases more@.len(),
    {
        let ghost before = more@;
        let p = more.pop().unwrap();
        rev.push(p);
        assert(more@ =~= m0.subrange(0, more@.len() as int));
    }
    let ghost o0 = out@;
    while rev.len() > 0
        invariant
            rev@.len() <= m0.len(),
            forall|k: int| 0 <= k < rev@.len() ==> #[trigger] rev@[k] == m0[m0.len() - 1 - k],
            out@ == o0 + m0.subrange(0, m0.len() - rev@.len()),
        decreases rev@.len(),
    {
        let p = rev.pop().unwrap();
        out.push(p);
        assert(out@ =~= o0 + m0.subrange(0, m0.len() - rev@.len()));
    }
    assert(m0.subrange(0, m0.len() as int) =~= m0);
    assert(pieces_view(out@) =~= pieces_view(old(out)@) + pieces_view(m0));
}

/// Appends the text of a string slice.
pub fn add_str(out: &mut Vec<Piece>, s: &str)
    ensures
        pieces_view(final(out)@) == pieces_view(old(out)@) + text(s@),
{
    add_text(out, s.to_owned());
}

impl VmData {
    /// How the value prints on its own (`data_text`).
    pub fn show(&self) -> (res: Vec<Piece>)
        ensures
            pieces_view(res@) == data_text(*self),
    {
        let mut out: Vec<Piece> = Vec::new();
        match self {
            VmData::Int(i) => add_text(&mut out, int_digits(*i)),
            VmData::Float(b) => {
                out.push(Piece::Float(*b));
                assert(pieces_view(out@) =~= seq![PieceView::Float(*b)]);
            },
            VmData::Bool(b) => add_str(&mut out, if *b { "true" } else { "false" }),
            VmData::Char(c) => {
                let mut t = String::new();
                push_char(&mut t, *c);
                assert(t@ =~= seq![*c]);
                add_text(&mut out, t);
            },
            VmData::Function(f) => {
                add_str(&mut out, "Function(");
                add_text(&mut out, nat_digits(*f as u64));
                add_str(&mut out, ")");
            },
            VmData::Object(i) => {
                add_str(&mut out, "Object(");
                add_text(&mut out, nat_digits(*i as u64));
                add_str(&mut out, ")");
            },
            VmData::StackAddress(a) => {
                add_str(&mut out, "StackAddress(");
                add_text(&mut out, nat_digits(*a as u64));
                add_str(&mut out, ")");
            },
            VmData::Nil => add_str(&mut out, "None"),
        }
        proof {
            assert(pieces_view(Seq::<Piece>::empty()) =~= Seq::<PieceView>::empty());
        }
        out
    }
}

/// An object element of printable data is printable one level deeper.
pub proof fn lemma_all_printable(h: Heap, data: Seq<VmData>, d: nat, k: int)
    requires
        all_printable(h, data, d),
        0 <= k < data.len(),
        d <= 3,
    ensures
        match data[k] {
            VmData::Object(j) => printable(h, j as int, d + 1),
            _ => true,
        },
    decreases data.len(),
{
    if k < data.len() - 1 {
        lemma_all_printable(h, data.drop_last(), d, k);
    }
}

/// One more element of `items`.
pub proof fn lemma_items_step(h: Heap, data: Seq<VmData>, d: nat, k: int)
    requires
        0 <= k < data.len(),
    ensures
        items(h, data.subrange(0, k + 1), d) == if k == 0 {
            elem(h, data[k], d)
        } else {
            items(h, data.subrange(0, k), d) + text(", "@) + elem(h, data[k], d)
        },
{
    assert(data.subrange(0, k + 1).drop_last() =~= data.subrange(0, k));
}

/// One more entry of `fields`.
pub proof fn lemma_fields_step(h: Heap, table: Seq<(String, usize)>, data: Seq<VmData>, d: nat, k: int)
    requires
        0 <= k < table.len(),
    ensures
        fields(h, table.subrange(0, k + 1), data, d) == ({
            let one = text(table[k].0@) + text(": "@) + elem(h, data[table[k].1 as int], d);
            if k == 0 {
                one
            } else {
                fields(h, table.subrange(0, k), data, d) + text(", "@) + one
            }
        }),
{
    assert(table.subrange(0, k + 1).drop_last() =~= table.subrange(0, k));
}

impl MemoryManager {
    /// The printed form of the object in slot `index` at nesting depth `depth`.
    pub fn print_heap_object(&self, index: usize, depth: usize) -> (res: Vec<Piece>)
        requires
            printable(self.heap@, index as int, depth as nat),
        ensures
            pieces_view(res@) == shown(self.heap@, index as int, depth as nat),
        decreases 4 - depth, 2nat,
    {
        let mut out: Vec<Piece> = Vec::new();
        proof {
            assert(pieces_view(out@) =~= Seq::<PieceView>::empty());
        }
        if depth > 3 {
            add_str(&mut out, "...");
            return out;
        }
        if index >= self.heap.len() {
            add_str(&mut out, "None");
            return out;
        }
        let entry = match &self.heap[index] {
            Some(e) => e,
            None => {
                add_str(&mut out, "None");
                return out;
            },
        };
        let o = &entry.object;
        let ghost h = self.heap@;
        let ghost d = depth as nat;
        match &o.object_type {
            ObjectType::List => {
                add_str(&mut out, "[");
                let inner = self.print_items(&o.data, depth);
                add_all(&mut out, inner);
                add_str(&mut out, "]");
            },
            ObjectType::Struct(name) => {
                add_text(&mut out, name.clone());
                add_str(&mut out, ": {");
                let inner = self.print_fields(o, depth);
                add_all(&mut out, inner);
                add_str(&mut out, "}");
            },
            ObjectType::String => {
                let t = match o.as_string() {
                    Some(t) => t,
                    None => String::new(),
                };
                add_text(&mut out, t);
            },
            ObjectType::Closure(p) => {
                add_str(&mut out, "<Closure: ");
                add_text(&mut out, nat_digits(*p as u64));
                add_str(&mut out, ", env: [");
                let inner = self.print_items(&o.data, depth);
                add_all(&mut out, inner);
                add_str(&mut out, "]>");
            },
            ObjectType::Tuple => {
                add_str(&mut out, "(");
                let inner = self.print_items(&o.data, depth);
                add_all(&mut out, inner);
                add_str(&mut out, ")");
            },
            ObjectType::Enum { name, tag } => {
                add_str(&mut out, "Enum(");
                add_text(&mut out, name.clone());
                add_str(&mut out, ": ");
                add_text(&mut out, int_digits(*tag));
                add_str(&mut out, ", [");
                let inner = self.print_items(&o.data, depth);
                add_all(&mut out, inner);
                add_str(&mut out, "])");
            },
        }
        out
    }

    /// The printed elements of `data` at depth `depth`, separated by `, `.
    fn print_items(&self, data: &Vec<VmData>, depth: usize) -> (res: Vec<Piece>)
        requires
            depth <= 3,
            all_printable(self.heap@, data@, depth as nat),
        ensures
            pieces_view(res@) == items(self.heap@, data@, depth as nat),
        decreases 4 - depth, 1nat,
    {
        let mut out: Vec<Piece> = Vec::new();
        let mut k: usize = 0;
        proof {
            assert(pieces_view(out@) =~= Seq::<PieceView>::empty());
            assert(data@.subrange(0, 0) =~= Seq::<VmData>::empty());
        }
        while k < data.len()
            invariant
                k <= data@.len(),
                depth <= 3,
                all_printable(self.heap@, data@, depth as nat),
                pieces_view(out@) == items(self.heap@, data@.subrange(0, k as int), depth as nat),
            decreases data@.len() - k,
        {
            proof {
                lemma_items_step(self.heap@, data@, depth as nat, k as int);
                lemma_all_printable(self.heap@, data@, depth as nat, k as int);
            }
            if k > 0 {
                add_str(&mut out, ", ");
            }
            let v = data[k];
            let piece = self.print_elem(v, depth);
            add_all(&mut out, piece);
            k += 1;
        }
        assert(data@.subrange(0, data@.len() as int) =~= data@);
        out
    }

    /// The printed form of an element at depth `depth`.
    fn print_elem(&self, v: VmData, depth: usize) -> (res: Vec<Piece>)
        requires
            depth <= 3,
            v matches VmData::Object(j) ==> printable(self.heap@, j as int, (depth + 1) as nat),
        ensures
            pieces_view(res@) == elem(self.heap@, v, depth as nat),
        decreases 4 - depth, 0nat,
    {
        match v {
            VmData::Object(j) => {
                if j < self.heap.len() {
                    self.print_heap_object(j, depth + 1)
                } else {
                    let mut out: Vec<Piece> = Vec::new();
                    add_str(&mut out, "Invalid Heap Object");
                    assert(pieces_view(Seq::<Piece>::empty()) =~= Seq::<PieceView>::empty());
                    out
                }
            },
            _ => v.show(),
        }
    }

    /// The printed fields of a struct at depth `depth`, in table order.
    fn print_fields(&self, o: &Object, depth: usize) -> (res: Vec<Piece>)
        requires
            depth <= 3,
            forall|k: int| 0 <= k < o.table@.len() ==> (#[trigger] o.table@[k]).1 < o.data@.len(),
            all_printable(self.heap@, o.data@, depth as nat),
        ensures
            pieces_view(res@) == fields(self.heap@, o.table@, o.data@, depth as nat),
        decreases 4 - depth, 1nat,
    {
        let mut out: Vec<Piece> = Vec::new();
        let mut k: usize = 0;
        proof {
            assert(pieces_view(out@) =~= Seq::<PieceView>::empty());
            assert(o.table@.subrange(0, 0) =~= Seq::<(String, usize)>::empty());
        }
        while k < o.table.len()
            invariant
                k <= o.table@.len(),
                depth <= 3,
                forall|k: int| 0 <= k < o.table@.len() ==> (#[trigger] o.table@[k]).1 < o.data@.len(),
                all_printable(self.heap@, o.data@, depth as nat),
                pieces_view(out@) == fields(self.heap@, o.table@.subrange(0, k as int), o.data@, depth as nat),
            decreases o.table@.len() - k,
        {
            let pos = o.table[k].1;
            proof {
                lemma_fields_step(self.heap@, o.table@, o.data@, depth as nat, k as int);
                lemma_all_printable(self.heap@, o.data@, depth as nat, pos as int);
            }
            if k > 0 {
                add_str(&mut out, ", ");
            }
            add_text(&mut out, o.table[k].0.clone());
            add_str(&mut out, ": ");
            let piece = self.print_elem(o.data[pos], depth);
            add_all(&mut out, piece);
            k += 1;
        }
        assert(o.table@.subrange(0, o.table@.len() as int) =~= o.table@);
        out
    }
}

} // verus!
