use vstd::prelude::*;

use crate::code::Code;
use crate::show::{add_all, add_str, add_text, int_digits, int_text, nat_digits, nat_text, pieces_view, text, Piece, PieceView};
use crate::state::{le_value, signed64};
use crate::vm::Vm;

verus! {

broadcast use vstd::seq::group_seq_axioms;

/// `256` to the power `n`.
pub open spec fn pow256(n: nat) -> nat
    decreases n,
{
    if n == 0 {
        1
    } else {
        256 * pow256((n - 1) as nat)
    }
}

/// A little-endian value of `n` bytes is below `256^n`.
pub proof fn lemma_le_bound(b: Seq<u8>)
    ensures
        le_value(b) < pow256(b.len()),
    decreases b.len(),
{
    if b.len() > 0 {
        lemma_le_bound(b.drop_first());
    }
}

/// The little-endian value of the `n` bytes of `p` at `i`.
pub fn read_le(p: &Vec<u8>, i: usize, n: usize) -> (res: u64)
    requires
        i + n <= p@.len(),
        n <= 8,
    ensures
        res as nat == le_value(p@.subrange(i as int, i + n)),
    decreases n,
{
    let _len = p.len();
    if n == 0 {
        0
    } else {
        let rest = read_le(p, i + 1, n - 1);
        proof {
            let b = p@.subrange(i as int, i + n);
            assert(b.drop_first() =~= p@.subrange(i + 1, i + n));
            lemma_le_bound(p@.subrange(i + 1, i + n));
            assert(pow256(7) == 0x100_0000_0000_0000) by {
                reveal_with_fuel(pow256, 8);
            }
            assert(pow256((n - 1) as nat) <= pow256(7)) by {
                lemma_pow256_mono((n - 1) as nat, 7);
            }
        }
        p[i] as u64 + 256 * rest
    }
}

/// Powers of 256 grow with the exponent.
pub proof fn lemma_pow256_mono(a: nat, b: nat)
    requires
        a <= b,
    ensures
        pow256(a) <= pow256(b),
    decreases b,
{
    if a < b {
        lemma_pow256_mono(a, (b - 1) as nat);
    }
}

/// The two's-complement reading of a 32-bit pattern.
pub open spec fn signed32(u: nat) -> int {
    if u < 0x8000_0000 {
        u as int
    } else {
        u - 0x1_0000_0000
    }
}

/// `String::from_utf8_lossy` from std: the text of `bytes` with each
/// invalid sequence replaced by U+FFFD.
pub uninterp spec fn lossy_utf8(bytes: Seq<u8>) -> Seq<char>;

/// `String::from_utf8_lossy` from std: decodes the bytes, replacing each
/// invalid sequence by U+FFFD; valid UTF-8 decodes exactly.
#[verifier::external_body]
fn lossy_text(bytes: &[u8]) -> (res: String)
    ensures
        res@ == lossy_utf8(bytes@),
        vstd::utf8::valid_utf8(bytes@) ==> res@ == vstd::utf8::decode_utf8(bytes@),
{
    String::from_utf8_lossy(bytes).into_owned()
}

/// A string operand as the debugger shows it: quoted, cut to its first 27
/// bytes and marked `...` when longer than 30 bytes; `None` when that cut
/// falls inside a character.
pub open spec fn preview(t: Seq<char>) -> Option<Seq<PieceView>> {
    let b = vstd::utf8::encode_utf8(t);
    if b.len() > 30 {
        if vstd::utf8::is_char_boundary(b, 27) {
            Some(text("\""@) + text(vstd::utf8::decode_utf8(b.subrange(0, 27))) + text("...\""@))
        } else {
            None
        }
    } else {
        Some(text("\""@) + text(t) + text("\""@))
    }
}

/// The operand of `op` as the debugger shows it, reading the bytes after
/// the instruction pointer `ip` (the opcode's position); empty when the
/// operand is cut off. `None` where the display would cut a character.
pub open spec fn peek(p: Seq<u8>, ip0: int, op: u8) -> Option<Seq<PieceView>> {
    let ip = ip0 + 1;
    let none = Seq::<PieceView>::empty();
    if op == Code::INTEGER {
        Some(if ip + 8 <= p.len() { text(int_text(signed64(le_value(p.subrange(ip, ip + 8))))) } else { none })
    } else if op == Code::FLOAT {
        Some(if ip + 8 <= p.len() { seq![PieceView::Float(le_value(p.subrange(ip, ip + 8)) as u64)] } else { none })
    } else if op == Code::STORE || op == Code::GET || op == Code::STOREFAST || op == Code::DIRECTCALL
        || op == Code::STOREGLOBAL || op == Code::GETGLOBAL || op == Code::ALLOCLOCALS
        || op == Code::ALLOCATEGLOBAL || op == Code::JUMPIFFALSE || op == Code::JMP
        || op == Code::FUNCTION || op == Code::CLOSURE {
        Some(if ip + 4 <= p.len() { text(nat_text(le_value(p.subrange(ip, ip + 4)))) } else { none })
    } else if op == Code::OFFSET {
        Some(if ip + 8 <= p.len() {
            text("args="@) + text(int_text(signed32(le_value(p.subrange(ip, ip + 4))))) + text(", locals="@)
                + text(int_text(signed32(le_value(p.subrange(ip + 4, ip + 8)))))
        } else {
            none
        })
    } else if op == Code::BJMP {
        Some(if ip + 4 <= p.len() { text("-"@) + text(nat_text(le_value(p.subrange(ip, ip + 4)))) } else { none })
    } else if op == Code::RET {
        Some(if ip < p.len() && p[ip] != 0 { text("(value)"@) } else { none })
    } else if op == Code::NATIVE {
        Some(if ip + 8 <= p.len() { text("#"@) + text(nat_text(le_value(p.subrange(ip, ip + 8)))) } else { none })
    } else if op == Code::CHAR {
        Some(if ip < p.len() { text("'"@) + text(seq![p[ip] as char]) + text("'"@) } else { none })
    } else if op == Code::BYTE {
        Some(if ip < p.len() { text(nat_text(p[ip] as nat)) } else { none })
    } else if op == Code::NEWLIST || op == Code::NEWSTRUCT || op == Code::GETBIND || op == Code::CID
        || op == Code::STACKREF {
        Some(if ip + 8 <= p.len() { text(nat_text(le_value(p.subrange(ip, ip + 8)))) } else { none })
    } else if op == Code::STRING {
        if ip + 8 <= p.len() {
            let sz = le_value(p.subrange(ip, ip + 8));
            if ip + 8 + sz <= p.len() {
                preview(lossy_utf8(p.subrange(ip + 8, ip + 8 + sz)))
            } else {
                Some(none)
            }
        } else {
            Some(none)
        }
    } else {
        Some(none)
    }
}

/// The quoted preview of a string operand, `None` where the cut would fall
/// inside a character.
fn preview_of(t: String) -> (res: Option<Vec<Piece>>)
    ensures
        match preview(t@) {
            Some(v) => res matches Some(r) && pieces_view(r@) == v,
            None => res is None,
        },
{
    let mut out: Vec<Piece> = Vec::new();
    proof {
        assert(pieces_view(out@) =~= Seq::<PieceView>::empty());
    }
    let ts = t.as_str();
    let byte_len = ts.as_bytes().len();
    if byte_len > 30 {
        if !ts.is_char_boundary(27) {
            return None;
        }
        let (head, _tail) = ts.split_at(27);
        proof {
            vstd::utf8::encode_utf8_decode_utf8(head@);
        }
        add_str(&mut out, "\"");
        add_str(&mut out, head);
        add_str(&mut out, "...\"");
        Some(out)
    } else {
        add_str(&mut out, "\"");
        add_str(&mut out, ts);
        add_str(&mut out, "\"");
        Some(out)
    }
}

/// The `n` bytes of `p` at `i`.
fn copy_bytes(p: &Vec<u8>, i: usize, n: usize) -> (res: Vec<u8>)
    requires
        i + n <= p@.len(),
    ensures
        res@ == p@.subrange(i as int, i + n),
{
    let _len = p.len();
    let mut out: Vec<u8> = Vec::new();
    let mut k: usize = 0;
    while k < n
        invariant
            k <= n,
            i + n <= p@.len(),
            p@.len() <= usize::MAX,
            out@ == p@.subrange(i as int, i + k),
        decreases n - k,
    {
        out.push(p[i + k]);
        k += 1;
        assert(out@ =~= p@.subrange(i as int, i + k));
    }
    out
}

/// The two's-complement reading of a 32-bit pattern.
fn as_signed32(u: u64) -> (res: i64)
    requires
        u < 0x1_0000_0000,
    ensures
        res as int == signed32(u as nat),
{
    if u < 0x8000_0000 {
        u as i64
    } else {
        u as i64 - 0x1_0000_0000
    }
}

/// The two's-complement reading of a 64-bit pattern.
fn as_signed64(u: u64) -> (res: i64)
    ensures
        res as int == signed64(u as nat),
{
    if u < 0x8000_0000_0000_0000 {
        u as i64
    } else {
        ((u - 0x8000_0000_0000_0000) as i64) + i64::MIN
    }
}

impl Vm {
    /// The text of the `STRING` operand at `ip`, when it is all there.
    fn string_operand(&self, ip: usize) -> (res: Option<String>)
        ensures
            ({
                let p = self.state.program@;
                if ip + 8 <= p.len() && ip + 8 + le_value(p.subrange(ip as int, ip + 8)) <= p.len() {
                    res matches Some(t) && t@ == lossy_utf8(p.subrange(ip + 8, ip + 8 + le_value(p.subrange(ip as int, ip + 8))))
                } else {
                    res is None
                }
            }),
    {
        let p = &self.state.program;
        if p.len() < 8 || ip > p.len() - 8 {
            return None;
        }
        let sz = read_le(p, ip, 8);
        if sz > (p.len() - ip - 8) as u64 {
            return None;
        }
        let bytes = copy_bytes(p, ip + 8, sz as usize);
        Some(lossy_text(bytes.as_slice()))
    }

    /// Whether the debugger can show the operand of `opcode` (it cannot where
    /// the cut of a long string operand falls inside a character).
    pub fn peek_ok(&self, opcode: u8) -> (res: bool)
        requires
            self.state.current_instruction < usize::MAX,
        ensures
            res == peek(self.state.program@, self.state.current_instruction as int, opcode) is Some,
    {
        if opcode != Code::STRING {
            return true;
        }
        match self.string_operand(self.state.current_instruction + 1) {
            Some(t) => match preview_of(t) {
                Some(_) => true,
                None => false,
            },
            None => true,
        }
    }

    /// The operand of `opcode` as the debugger shows it, without moving the
    /// instruction pointer.
    pub fn peek_operand(&self, opcode: u8) -> (res: Vec<Piece>)
        requires
            self.state.current_instruction < usize::MAX,
            peek(self.state.program@, self.state.current_instruction as int, opcode) is Some,
        ensures
            pieces_view(res@) == peek(self.state.program@, self.state.current_instruction as int, opcode)->0,
    {
        let p = &self.state.program;
        let ip = self.state.current_instruction + 1;
        let mut out: Vec<Piece> = Vec::new();
        proof {
            assert(pieces_view(out@) =~= Seq::<PieceView>::empty());
        }
        let has8 = p.len() >= 8 && ip <= p.len() - 8;
        let has4 = p.len() >= 4 && ip <= p.len() - 4;
        let has1 = ip < p.len();
        if opcode == Code::INTEGER {
            if has8 {
                add_text(&mut out, int_digits(as_signed64(read_le(p, ip, 8))));
            }
        } else if opcode == Code::FLOAT {
            if has8 {
                let bits = read_le(p, ip, 8);
                out.push(Piece::Float(bits));
                assert(pieces_view(out@) =~= seq![PieceView::Float(bits)]);
            }
        } else if opcode == Code::STORE || opcode == Code::GET || opcode == Code::STOREFAST
            || opcode == Code::DIRECTCALL || opcode == Code::STOREGLOBAL || opcode == Code::GETGLOBAL
            || opcode == Code::ALLOCLOCALS || opcode == Code::ALLOCATEGLOBAL || opcode == Code::JUMPIFFALSE
            || opcode == Code::JMP || opcode == Code::FUNCTION || opcode == Code::CLOSURE {
            if has4 {
                add_text(&mut out, nat_digits(read_le(p, ip, 4)));
            }
        } else if opcode == Code::OFFSET {
            if has8 {
                let a = read_le(p, ip, 4);
                let b = read_le(p, ip + 4, 4);
                proof {
                    lemma_le_bound(p@.subrange(ip as int, ip + 4));
                    lemma_le_bound(p@.subrange(ip + 4, ip + 8));
                    assert(pow256(4) == 0x1_0000_0000) by {
                        reveal_with_fuel(pow256, 5);
                    }
                }
                add_str(&mut out, "args=");
                add_text(&mut out, int_digits(as_signed32(a)));
                add_str(&mut out, ", locals=");
                add_text(&mut out, int_digits(as_signed32(b)));
            }
        } else if opcode == Code::BJMP {
            if has4 {
                add_str(&mut out, "-");
                add_text(&mut out, nat_digits(read_le(p, ip, 4)));
            }
        } else if opcode == Code::RET {
            if has1 && p[ip] != 0 {
                add_str(&mut out, "(value)");
            }
        } else if opcode == Code::NATIVE {
            if has8 {
                add_str(&mut out, "#");
                add_text(&mut out, nat_digits(read_le(p, ip, 8)));
            }
        } else if opcode == Code::CHAR {
            if has1 {
                let c = p[ip] as char;
                let mut t = String::new();
                crate::text::push_char(&mut t, c);
                assert(t@ =~= seq![c]);
                add_str(&mut out, "'");
                add_text(&mut out, t);
                add_str(&mut out, "'");
            }
        } else if opcode == Code::BYTE {
            if has1 {
                add_text(&mut out, nat_digits(p[ip] as u64));
            }
        } else if opcode == Code::NEWLIST || opcode == Code::NEWSTRUCT || opcode == Code::GETBIND
            || opcode == Code::CID || opcode == Code::STACKREF {
            if has8 {
                add_text(&mut out, nat_digits(read_le(p, ip, 8)));
            }
        } else if opcode == Code::STRING {
            if let Some(t) = self.string_operand(ip) {
                if let Some(shown) = preview_of(t) {
                    add_all(&mut out, shown);
                }
            }
        }
        out
    }

    /// The operand of `opcode` as the debugger shows it, or `None` where the
    /// cut of a long string operand would fall inside a character.
    pub fn peek_operand_checked(&self, opcode: u8) -> (res: Option<Vec<Piece>>)
        requires
            self.state.current_instruction < usize::MAX,
        ensures
            match peek(self.state.program@, self.state.current_instruction as int, opcode) {
                Some(v) => res matches Some(r) && pieces_view(r@) == v,
                None => res is None,
            },
    {
        if self.peek_ok(opcode) {
            Some(self.peek_operand(opcode))
        } else {
            None
        }
    }
}

} // verus!
