//! What the shell says about code that it assembles or compiles.

use vstd::prelude::*;
use crate::text::{
    decimal, law_pieces, pieces, push_decimal, split_char, trim, trimmed, views,
};

verus! {

/// The instructions of a line: what stands between semicolons, without the
/// white space around it, where anything is left.
pub open spec fn instruction_texts(ps: Seq<Seq<char>>, n: int) -> Seq<Seq<char>>
    decreases n,
{
    if n <= 0 {
        Seq::empty()
    } else {
        let t = trimmed(ps[n - 1]);
        if t.len() == 0 {
            instruction_texts(ps, n - 1)
        } else {
            instruction_texts(ps, n - 1).push(t)
        }
    }
}

/// The instructions of the line `src`.
pub open spec fn line_instructions(src: Seq<char>) -> Seq<Seq<char>> {
    let ps = pieces(src, ';', 0);
    instruction_texts(ps, ps.len() as int)
}

/// The instructions of the line `src`.
pub fn split_instructions(src: &str) -> (v: Vec<String>)
    ensures
        views(v@) == line_instructions(src@),
{
    let ps = split_char(src, ';');
    let mut v: Vec<String> = Vec::new();
    let mut i: usize = 0;
    assert(views(v@) =~= Seq::<Seq<char>>::empty());
    while i < ps.len()
        invariant
            i <= ps@.len(),
            views(v@) == instruction_texts(views(ps@), i as int),
        decreases ps@.len() - i,
    {
        let t = trim(ps[i].as_str());
        assert(views(ps@)[i as int] == ps@[i as int]@);
        if t.unicode_len() != 0 {
            let ghost before = v@;
            let s = String::from_str(t);
            v.push(s);
            assert(views(v@) =~= views(before).push(s@));
        }
        i += 1;
    }
    v
}

/// How a line of instructions goes on once each was parsed or not.
#[derive(Debug, Clone, Copy, PartialEq, Eq, Structural)]
pub enum AsmStep {
    /// This one could not be parsed.
    Unparsed(usize),
    /// There are none.
    Nothing,
    /// All can be encoded, and a return behind them.
    Encode,
}

/// The first instruction that was not parsed, from `i` on.
pub open spec fn first_unparsed(parsed: Seq<bool>, i: int) -> AsmStep
    decreases parsed.len() - i,
{
    if i >= parsed.len() {
        if parsed.len() == 0 {
            AsmStep::Nothing
        } else {
            AsmStep::Encode
        }
    } else if !parsed[i] {
        AsmStep::Unparsed(i as usize)
    } else {
        first_unparsed(parsed, i + 1)
    }
}

/// How a line of instructions goes on; `parsed` tells of each whether it was
/// parsed.
pub fn asm_step(parsed: &Vec<bool>) -> (r: AsmStep)
    ensures
        r == first_unparsed(parsed@, 0),
{
    let mut i: usize = 0;
    while i < parsed.len()
        invariant
            i <= parsed@.len(),
            first_unparsed(parsed@, 0) == first_unparsed(parsed@, i as int),
        decreases parsed@.len() - i,
    {
        if !parsed[i] {
            return AsmStep::Unparsed(i);
        }
        i += 1;
    }
    if parsed.len() == 0 {
        AsmStep::Nothing
    } else {
        AsmStep::Encode
    }
}

/// The first `n` of the encodings, one behind the other.
pub open spec fn joined_bytes(parts: Seq<Vec<u8>>, n: int) -> Seq<u8>
    decreases n,
{
    if n <= 0 {
        Seq::empty()
    } else {
        joined_bytes(parts, n - 1) + parts[n - 1]@
    }
}

/// The code that is run for instructions with the encodings `parts`: these in
/// order, and one return behind them, whose encoding is `ret`.
pub fn join_code(parts: &Vec<Vec<u8>>, ret: &Vec<u8>) -> (code: Vec<u8>)
    ensures
        code@ == joined_bytes(parts@, parts@.len() as int) + ret@,
{
    let mut code: Vec<u8> = Vec::new();
    let mut i: usize = 0;
    while i < parts.len()
        invariant
            i <= parts@.len(),
            code@ == joined_bytes(parts@, i as int),
        decreases parts@.len() - i,
    {
        let ghost before = code@;
        code.extend_from_slice(parts[i].as_slice());
        assert(code@ =~= before + parts@[i as int]@);
        i += 1;
    }
    let ghost before = code@;
    code.extend_from_slice(ret.as_slice());
    assert(code@ =~= before + ret@);
    code
}

/// How running a line of instructions ended.
pub enum AsmEnd {
    /// This instruction could not be parsed.
    Unparsed(String),
    Nothing,
    /// An instruction could not be encoded, for this reason.
    Encoding(String),
    NoMemory,
    WriteFailed,
    NotExecutable,
    /// It ran and returned this.
    Result(u64),
}

/// What the shell prints about it.
pub open spec fn asm_text(e: AsmEnd) -> Seq<char> {
    match e {
        AsmEnd::Unparsed(s) => "Failed to parse instruction: "@ + s@ + "\n"@,
        AsmEnd::Nothing => "No valid instructions found.\n"@,
        AsmEnd::Encoding(s) => "Encoding error: "@ + s@ + "\n"@,
        AsmEnd::NoMemory => "JIT allocation error.\n"@,
        AsmEnd::WriteFailed => "JIT write error.\n"@,
        AsmEnd::NotExecutable => "JIT make-executable error.\n"@,
        AsmEnd::Result(n) => "Result: "@ + decimal(n as int) + "\n"@,
    }
}

/// What the shell prints about how running a line of instructions ended.
pub fn asm_message(e: &AsmEnd) -> (s: String)
    ensures
        s@ == asm_text(*e),
{
    match e {
        AsmEnd::Unparsed(t) => {
            let mut s = String::from_str("Failed to parse instruction: ");
            s.append(t.as_str());
            s.append("\n");
            s
        },
        AsmEnd::Nothing => String::from_str("No valid instructions found.\n"),
        AsmEnd::Encoding(t) => {
            let mut s = String::from_str("Encoding error: ");
            s.append(t.as_str());
            s.append("\n");
            s
        },
        AsmEnd::NoMemory => String::from_str("JIT allocation error.\n"),
        AsmEnd::WriteFailed => String::from_str("JIT write error.\n"),
        AsmEnd::NotExecutable => String::from_str("JIT make-executable error.\n"),
        AsmEnd::Result(n) => {
            let mut s = String::from_str("Result: ");
            push_decimal(&mut s, *n);
            s.append("\n");
            s
        },
    }
}

/// What the shell prints about how compiling and running C code ended.
pub fn c_message(r: &Result<u64, String>) -> (s: String)
    ensures
        s@ == (match *r {
            Ok(n) => "Result: "@ + decimal(n as int) + "\n"@,
            Err(e) => "C JIT error: "@ + e@ + "\n"@,
        }),
{
    match r {
        Ok(n) => {
            let mut s = String::from_str("Result: ");
            push_decimal(&mut s, *n);
            s.append("\n");
            s
        },
        Err(e) => {
            let mut s = String::from_str("C JIT error: ");
            s.append(e.as_str());
            s.append("\n");
            s
        },
    }
}

proof fn lemma_instruction_texts(x: Seq<char>, ps: Seq<Seq<char>>, n: int)
    requires
        0 <= n <= ps.len(),
    ensures
        instruction_texts(seq![x] + ps, n + 1) == (if trimmed(x).len() == 0 {
            Seq::empty()
        } else {
            seq![trimmed(x)]
        }) + instruction_texts(ps, n),
    decreases n,
{
    let all = seq![x] + ps;
    let first = if trimmed(x).len() == 0 {
        Seq::<Seq<char>>::empty()
    } else {
        seq![trimmed(x)]
    };
    if n == 0 {
        assert(all[0] == x);
        assert(instruction_texts(all, 0) == Seq::<Seq<char>>::empty());
        assert(instruction_texts(all, 1) =~= first + instruction_texts(ps, 0));
    } else {
        lemma_instruction_texts(x, ps, n - 1);
        assert(all[n] == ps[n - 1]);
        assert(instruction_texts(all, n + 1) =~= first + instruction_texts(ps, n));
    }
}

/// A line without a semicolon is one instruction, without the white space around
/// it, or none where nothing is left. A line with one is what stands before it,
/// in the same way, and then the instructions behind it.
pub proof fn law_line_instructions(a: Seq<char>, rest: Seq<char>)
    requires
        !a.contains(';'),
    ensures
        ({
            let first = if trimmed(a).len() == 0 {
                Seq::<Seq<char>>::empty()
            } else {
                seq![trimmed(a)]
            };
            &&& line_instructions(a) == first
            &&& line_instructions(a + seq![';'] + rest) == first + line_instructions(rest)
        }),
{
    law_pieces(a, ';', rest);
    let none = Seq::<Seq<char>>::empty();
    assert(seq![a] + none =~= seq![a]);
    lemma_instruction_texts(a, none, 0);
    let first = if trimmed(a).len() == 0 {
        none
    } else {
        seq![trimmed(a)]
    };
    assert(first + none =~= first);
    let ps = pieces(rest, ';', 0);
    lemma_instruction_texts(a, ps, ps.len() as int);
}

/// The first instruction that was not parsed ends it; where all were, they are
/// encoded, and where there were none, nothing is.
pub proof fn law_first_unparsed(parsed: Seq<bool>)
    requires
        parsed.len() <= usize::MAX,
    ensures
        match first_unparsed(parsed, 0) {
            AsmStep::Unparsed(k) => k < parsed.len() && !parsed[k as int] && forall|j: int|
                0 <= j < k ==> #[trigger] parsed[j],
            AsmStep::Nothing => parsed.len() == 0,
            AsmStep::Encode => parsed.len() > 0 && forall|j: int|
                0 <= j < parsed.len() ==> #[trigger] parsed[j],
        },
{
    lemma_first_unparsed(parsed, 0);
}

proof fn lemma_first_unparsed(parsed: Seq<bool>, i: int)
    requires
        parsed.len() <= usize::MAX,
        0 <= i <= parsed.len(),
    ensures
        match first_unparsed(parsed, i) {
            AsmStep::Unparsed(k) => i <= k < parsed.len() && !parsed[k as int] && forall|j: int|
                i <= j < k ==> #[trigger] parsed[j],
            AsmStep::Nothing => parsed.len() == 0,
            AsmStep::Encode => parsed.len() > 0 && forall|j: int|
                i <= j < parsed.len() ==> #[trigger] parsed[j],
        },
    decreases parsed.len() - i,
{
    if i < parsed.len() && parsed[i] {
        lemma_first_unparsed(parsed, i + 1);
    }
}

/// No encodings give no code, and each further one comes behind the others.
pub proof fn law_joined_bytes(parts: Seq<Vec<u8>>, n: int)
    requires
        0 <= n < parts.len(),
    ensures
        joined_bytes(parts, 0) == Seq::<u8>::empty(),
        joined_bytes(parts, n + 1) == joined_bytes(parts, n) + parts[n]@,
{
}

/// The shell tells what could not be parsed or encoded, and what was returned.
pub proof fn law_asm_texts(s: String, n: u64)
    ensures
        asm_text(AsmEnd::Unparsed(s)) == "Failed to parse instruction: "@ + s@ + "\n"@,
        asm_text(AsmEnd::Encoding(s)) == "Encoding error: "@ + s@ + "\n"@,
        asm_text(AsmEnd::Result(n)) == "Result: "@ + decimal(n as int) + "\n"@,
        asm_text(AsmEnd::Nothing) == "No valid instructions found.\n"@,
        asm_text(AsmEnd::NoMemory) == "JIT allocation error.\n"@,
        asm_text(AsmEnd::WriteFailed) == "JIT write error.\n"@,
        asm_text(AsmEnd::NotExecutable) == "JIT make-executable error.\n"@,
{
}

} // verus!
