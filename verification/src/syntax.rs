//! The assembler's line syntax: comments, labels, data directives and one
//! instruction per line, read into `Item`s.
use vstd::prelude::*;
use crate::assembler::{Dir, Inst, Item, Jump, Target};
use crate::text::{
    chars_of, is_ws, is_ws_char, trim_start, number_in, number_value, ok_of, radix_in, radix_value, range_is,
    range_starts_with, trim, trim_range,
};

verus! {

// ----------------------------------------------------------------------------
// Views of items.
// ----------------------------------------------------------------------------

/// A jump target with its label as characters.
pub enum TargetView {
    Label(Seq<char>),
    Abs(u32),
}

/// An item with its label names as characters.
pub enum ItemView {
    Label(Seq<char>),
    Instr(Inst),
    Jump(Jump, TargetView),
    Dir(Dir),
}

impl View for Target {
    type V = TargetView;

    open spec fn view(&self) -> TargetView {
        match self {
            Target::Label(l) => TargetView::Label(l@),
            Target::Abs(v) => TargetView::Abs(*v),
        }
    }
}

impl View for Item {
    type V = ItemView;

    open spec fn view(&self) -> ItemView {
        match self {
            Item::Label(l) => ItemView::Label(l@),
            Item::Instr(i) => ItemView::Instr(*i),
            Item::Jump(j, t) => ItemView::Jump(*j, t@),
            Item::Dir(d) => ItemView::Dir(*d),
        }
    }
}

/// Why a line is not valid assembly.
#[derive(Debug, Clone, Copy, PartialEq, Eq, Structural)]
pub enum SyntaxError {
    /// `.word` or `.byte` not followed by a number.
    BadDirective,
    /// The wrong number of comma-separated operands.
    Operands,
    /// An operand that should name a data (`dN`) or address (`aN`) register.
    BadRegister,
    /// An operand that should be a number (a leading `#` is allowed).
    BadImmediate,
    /// A memory operand that is not `[aN]`, `[aN+off]` or `[addr]`.
    BadMemory,
    /// A 16-bit AND, OR or XOR whose destination is not its first source.
    SameRegister,
    /// A mnemonic the assembler does not know.
    UnknownMnemonic,
}

// ----------------------------------------------------------------------------
// Scanning.
// ----------------------------------------------------------------------------

/// The index of the first `c` in `s` at or after `i`, or `s.len()`.
pub open spec fn index_from(s: Seq<char>, c: char, i: int) -> int
    decreases s.len() - i,
{
    if i < 0 || i >= s.len() {
        s.len() as int
    } else if s[i] == c {
        i
    } else {
        index_from(s, c, i + 1)
    }
}

/// The index of the first `c` in `s`, or `s.len()`.
pub open spec fn index_of(s: Seq<char>, c: char) -> int {
    index_from(s, c, 0)
}

/// The index of the first whitespace character in `s` at or after `i`, or `s.len()`.
pub open spec fn ws_from(s: Seq<char>, i: int) -> int
    decreases s.len() - i,
{
    if i < 0 || i >= s.len() {
        s.len() as int
    } else if is_ws(s[i]) {
        i
    } else {
        ws_from(s, i + 1)
    }
}

/// The pieces of `s` between the separators `c`, from `i` on; the piece
/// being read began at `st`.
pub open spec fn split_from(s: Seq<char>, c: char, i: int, st: int, acc: Seq<Seq<char>>) -> Seq<
    Seq<char>,
>
    decreases s.len() - i,
{
    if i < 0 || i >= s.len() {
        acc.push(s.subrange(st, s.len() as int))
    } else if s[i] == c {
        split_from(s, c, i + 1, i + 1, acc.push(s.subrange(st, i)))
    } else {
        split_from(s, c, i + 1, st, acc)
    }
}

/// The pieces of `s` between the separators `c` (`str::split`): one more
/// than there are separators.
pub open spec fn split_on(s: Seq<char>, c: char) -> Seq<Seq<char>> {
    split_from(s, c, 0, 0, Seq::empty())
}

/// The words of `s` from `i` on, appended to `out`, each separated from what
/// precedes it by one space; `gap` says whether whitespace came since the
/// last word.
pub open spec fn join_from(s: Seq<char>, i: int, gap: bool, out: Seq<char>) -> Seq<char>
    decreases s.len() - i,
{
    if i < 0 || i >= s.len() {
        out
    } else if is_ws(s[i]) {
        join_from(s, i + 1, true, out)
    } else {
        join_from(
            s,
            i + 1,
            false,
            if gap && out.len() > 0 {
                out.push(' ').push(s[i])
            } else {
                out.push(s[i])
            },
        )
    }
}

/// The words of `s` (its maximal runs of non-whitespace) joined by single
/// spaces.
pub open spec fn join_words(s: Seq<char>) -> Seq<char> {
    join_from(s, 0, false, Seq::empty())
}

/// ASCII lowercase of one character.
pub open spec fn lower_char(c: char) -> char {
    if 'A' <= c && c <= 'Z' {
        ((c as u32) + 32) as char
    } else {
        c
    }
}

/// ASCII lowercase of a string. The mnemonics are ASCII and none holds a
/// `k`, so a word matches one of them in ASCII lowercase exactly when it
/// does in full Unicode lowercase.
pub open spec fn ascii_lower(s: Seq<char>) -> Seq<char> {
    s.map_values(|c: char| lower_char(c))
}

/// `s` without its leading `#` characters.
pub open spec fn strip_hashes(s: Seq<char>) -> Seq<char>
    decreases s.len(),
{
    if s.len() > 0 && s[0] == '#' {
        strip_hashes(s.drop_first())
    } else {
        s
    }
}

/// Whether `s` begins with `p`.
pub open spec fn starts_with(s: Seq<char>, p: Seq<char>) -> bool {
    s.len() >= p.len() && s.subrange(0, p.len() as int) == p
}

// ----------------------------------------------------------------------------
// Operands.
// ----------------------------------------------------------------------------

/// The comma-separated operands, each trimmed.
pub open spec fn operands(rest: Seq<char>) -> Seq<Seq<char>> {
    split_on(rest, ',').map_values(|p: Seq<char>| trim(p))
}

/// A number (`parse_num`).
pub open spec fn num(s: Seq<char>) -> Option<u32> {
    ok_of(number_value(s))
}

/// A register of the bank `bank` (`d` or `a`): the letter, then a decimal
/// number, any number.
pub open spec fn reg(s: Seq<char>, bank: char) -> Option<u32> {
    if s.len() >= 1 && s[0] == bank {
        ok_of(radix_value(s.drop_first(), false))
    } else {
        None
    }
}

/// An immediate: a number after any leading `#`.
pub open spec fn imm(s: Seq<char>) -> Option<u32> {
    num(strip_hashes(s))
}

/// A jump target: a number, else a label.
pub open spec fn target(s: Seq<char>) -> TargetView {
    match num(s) {
        Some(v) => TargetView::Abs(v),
        None => TargetView::Label(s),
    }
}

/// Whether `st` is bracketed: it begins with `[` and ends with `]`.
pub open spec fn bracketed(st: Seq<char>) -> bool {
    st.len() >= 1 && st[0] == '[' && st.last() == ']'
}

/// `[aN]` or `[aN+off]`: the base register and the offset (0 when absent).
pub open spec fn mem_ab_off(s: Seq<char>) -> Result<(u32, u32), SyntaxError> {
    let st = trim(s);
    if !bracketed(st) {
        Err(SyntaxError::BadMemory)
    } else {
        let parts = split_on(st.subrange(1, st.len() - 1), '+');
        match reg(trim(parts[0]), 'a') {
            None => Err(SyntaxError::BadMemory),
            Some(ab) => if parts.len() >= 2 {
                match num(trim(parts[1])) {
                    Some(off) => Ok((ab, off)),
                    None => Err(SyntaxError::BadMemory),
                }
            } else {
                Ok((ab, 0))
            },
        }
    }
}

/// `[addr]`: an absolute address.
pub open spec fn mem_abs(s: Seq<char>) -> Result<u32, SyntaxError> {
    let st = trim(s);
    if !bracketed(st) {
        Err(SyntaxError::BadMemory)
    } else {
        match num(st.subrange(1, st.len() - 1)) {
            Some(v) => Ok(v),
            None => Err(SyntaxError::BadMemory),
        }
    }
}

/// Whether a memory operand is the base-register form: it begins with `[`
/// and holds an `a` somewhere.
pub open spec fn is_ab_form(mem: Seq<char>) -> bool {
    mem.len() >= 1 && mem[0] == '[' && index_of(mem, 'a') < mem.len()
}

// ----------------------------------------------------------------------------
// Scanning, executable.
// ----------------------------------------------------------------------------

/// The index of the first `c` in `s[lo..hi]`, counted from `lo`, or `hi`.
pub fn find_in(s: &[char], lo: usize, hi: usize, c: char) -> (r: usize)
    requires
        lo <= hi <= s@.len(),
    ensures
        r == lo + index_of(s@.subrange(lo as int, hi as int), c),
        lo <= r <= hi,
{
    let ghost t = s@.subrange(lo as int, hi as int);
    let mut i = lo;
    while i < hi
        invariant
            lo <= i <= hi <= s@.len(),
            t == s@.subrange(lo as int, hi as int),
            index_of(t, c) == index_from(t, c, i - lo),
        decreases hi - i,
    {
        assert(t[i - lo] == s@[i as int]);
        if s[i] == c {
            return i;
        }
        i = i + 1;
    }
    i
}

/// The index of the first whitespace character in `s[lo..hi]`, or `hi`.
fn ws_in(s: &[char], lo: usize, hi: usize) -> (r: usize)
    requires
        lo <= hi <= s@.len(),
    ensures
        r == lo + ws_from(s@.subrange(lo as int, hi as int), 0),
        lo <= r <= hi,
{
    let ghost t = s@.subrange(lo as int, hi as int);
    let mut i = lo;
    while i < hi
        invariant
            lo <= i <= hi <= s@.len(),
            t == s@.subrange(lo as int, hi as int),
            ws_from(t, 0) == ws_from(t, i - lo),
        decreases hi - i,
    {
        assert(t[i - lo] == s@[i as int]);
        if is_ws_char(s[i]) {
            return i;
        }
        i = i + 1;
    }
    i
}

/// The trimmed bounds, within `s`, of the pieces of `s[lo..hi]` between the
/// separators `c`.
fn split_ranges(s: &[char], lo: usize, hi: usize, c: char) -> (r: Vec<(usize, usize)>)
    requires
        lo <= hi <= s@.len(),
    ensures
        r@.len() == split_on(s@.subrange(lo as int, hi as int), c).len(),
        r@.len() >= 1,
        forall|k: int|
            0 <= k < r@.len() ==> lo <= #[trigger] r@[k].0 <= r@[k].1 <= hi && s@.subrange(
                r@[k].0 as int,
                r@[k].1 as int,
            ) == trim(split_on(s@.subrange(lo as int, hi as int), c)[k]),
{
    let ghost t = s@.subrange(lo as int, hi as int);
    let mut out: Vec<(usize, usize)> = Vec::new();
    let ghost mut acc: Seq<Seq<char>> = Seq::empty();
    let mut st = lo;
    let mut i = lo;
    while i < hi
        invariant
            lo <= st <= i <= hi <= s@.len(),
            t == s@.subrange(lo as int, hi as int),
            split_on(t, c) == split_from(t, c, i - lo, st - lo, acc),
            out@.len() == acc.len(),
            forall|k: int|
                0 <= k < out@.len() ==> lo <= #[trigger] out@[k].0 <= out@[k].1 <= hi
                    && s@.subrange(out@[k].0 as int, out@[k].1 as int) == trim(acc[k]),
        decreases hi - i,
    {
        assert(t[i - lo] == s@[i as int]);
        if s[i] == c {
            let (a, b) = trim_range(s, st, i);
            assert(t.subrange(st - lo, i - lo) =~= s@.subrange(st as int, i as int));
            proof {
                acc = acc.push(t.subrange(st - lo, i - lo));
            }
            out.push((a, b));
            st = i + 1;
        }
        i = i + 1;
    }
    let (a, b) = trim_range(s, st, hi);
    assert(t.subrange(st - lo, t.len() as int) =~= s@.subrange(st as int, hi as int));
    proof {
        acc = acc.push(t.subrange(st - lo, t.len() as int));
    }
    out.push((a, b));
    assert(split_on(t, c) == acc);
    out
}

/// The words of `s[lo..hi]` joined by single spaces, with, for each
/// character, its index in `s`, or `usize::MAX` for an inserted space.
fn join_in(s: &[char], lo: usize, hi: usize) -> (r: (Vec<char>, Vec<usize>))
    requires
        lo <= hi <= s@.len(),
    ensures
        r.0@ == join_words(s@.subrange(lo as int, hi as int)),
        r.1@.len() == r.0@.len(),
        forall|k: int|
            0 <= k < r.0@.len() ==> (if #[trigger] r.1@[k] == usize::MAX {
                r.0@[k] == ' '
            } else {
                r.1@[k] < s@.len() && r.0@[k] == s@[r.1@[k] as int]
            }),
{
    let ghost t = s@.subrange(lo as int, hi as int);
    let mut out: Vec<char> = Vec::new();
    let mut org: Vec<usize> = Vec::new();
    let mut gap = false;
    let mut i = lo;
    while i < hi
        invariant
            lo <= i <= hi <= s@.len(),
            t == s@.subrange(lo as int, hi as int),
            join_words(t) == join_from(t, i - lo, gap, out@),
            org@.len() == out@.len(),
            forall|k: int|
                0 <= k < out@.len() ==> (if #[trigger] org@[k] == usize::MAX {
                    out@[k] == ' '
                } else {
                    org@[k] < s@.len() && out@[k] == s@[org@[k] as int]
                }),
        decreases hi - i,
    {
        let c = s[i];
        assert(t[i - lo] == c);
        if is_ws_char(c) {
            gap = true;
        } else {
            if gap && out.len() > 0 {
                out.push(' ');
                org.push(usize::MAX);
            }
            out.push(c);
            org.push(i);
            gap = false;
        }
        i = i + 1;
    }
    (out, org)
}

/// The string of `r[lo..hi]`, built from one-character pieces of `line`
/// (or spaces) that `org` points to.
fn string_from(line: &str, r: &[char], org: &[usize], lo: usize, hi: usize) -> (out: String)
    requires
        lo <= hi <= r@.len(),
        org@.len() == r@.len(),
        forall|k: int|
            0 <= k < r@.len() ==> (if #[trigger] org@[k] == usize::MAX {
                r@[k] == ' '
            } else {
                org@[k] < line@.len() && r@[k] == line@[org@[k] as int]
            }),
    ensures
        out@ == r@.subrange(lo as int, hi as int),
{
    let mut out = String::new();
    let mut k = lo;
    while k < hi
        invariant
            lo <= k <= hi <= r@.len(),
            org@.len() == r@.len(),
            forall|q: int|
                0 <= q < r@.len() ==> (if #[trigger] org@[q] == usize::MAX {
                    r@[q] == ' '
                } else {
                    org@[q] < line@.len() && r@[q] == line@[org@[q] as int]
                }),
            out@ == r@.subrange(lo as int, k as int),
        decreases hi - k,
    {
        let o = org[k];
        assert(o == org@[k as int]);
        if o == usize::MAX {
            proof {
                reveal_strlit(" ");
            }
            out.append(" ");
        } else {
            let piece = line.substring_char(o, o + 1);
            assert(piece@ =~= seq![r@[k as int]]);
            out.append(piece);
        }
        assert(out@ =~= r@.subrange(lo as int, k + 1));
        k = k + 1;
    }
    out
}

/// A register of bank `bank` in `s[lo..hi]` (see `reg`).
fn reg_in(s: &[char], lo: usize, hi: usize, bank: char) -> (r: Option<u32>)
    requires
        lo <= hi <= s@.len(),
    ensures
        r == reg(s@.subrange(lo as int, hi as int), bank),
{
    let ghost t = s@.subrange(lo as int, hi as int);
    if hi > lo && s[lo] == bank {
        assert(t[0] == s@[lo as int]);
        assert(t.drop_first() =~= s@.subrange(lo + 1, hi as int));
        match radix_in(s, lo + 1, hi, false) {
            Ok(v) => Some(v),
            Err(_) => None,
        }
    } else {
        assert(hi > lo ==> t[0] == s@[lo as int]);
        None
    }
}

/// A number in `s[lo..hi]` (see `num`).
fn num_in(s: &[char], lo: usize, hi: usize) -> (r: Option<u32>)
    requires
        lo <= hi <= s@.len(),
    ensures
        r == num(s@.subrange(lo as int, hi as int)),
{
    match number_in(s, lo, hi) {
        Ok(v) => Some(v),
        Err(_) => None,
    }
}

/// An immediate in `s[lo..hi]` (see `imm`).
fn imm_in(s: &[char], lo: usize, hi: usize) -> (r: Option<u32>)
    requires
        lo <= hi <= s@.len(),
    ensures
        r == imm(s@.subrange(lo as int, hi as int)),
{
    let mut i = lo;
    while i < hi && s[i] == '#'
        invariant
            lo <= i <= hi <= s@.len(),
            strip_hashes(s@.subrange(lo as int, hi as int)) == strip_hashes(s@.subrange(i as int, hi as int)),
        decreases hi - i,
    {
        assert(s@.subrange(i as int, hi as int).drop_first() =~= s@.subrange(i + 1, hi as int));
        i = i + 1;
    }
    assert(i < hi ==> s@.subrange(i as int, hi as int)[0] == s@[i as int]);
    num_in(s, i, hi)
}

/// Whether `s[lo..hi]` is bracketed (see `bracketed`).
fn bracketed_in(s: &[char], lo: usize, hi: usize) -> (r: bool)
    requires
        lo <= hi <= s@.len(),
    ensures
        r == bracketed(s@.subrange(lo as int, hi as int)),
        r ==> hi - lo >= 2,
{
    let ghost t = s@.subrange(lo as int, hi as int);
    if hi > lo {
        assert(t[0] == s@[lo as int] && t.last() == s@[hi - 1]);
    }
    hi > lo && s[lo] == '[' && s[hi - 1] == ']'
}

/// `[aN]` or `[aN+off]` in `s[lo..hi]` (see `mem_ab_off`).
fn mem_ab_off_in(s: &[char], lo: usize, hi: usize) -> (r: Result<(u32, u32), SyntaxError>)
    requires
        lo <= hi <= s@.len(),
    ensures
        r == mem_ab_off(s@.subrange(lo as int, hi as int)),
{
    let (a, b) = trim_range(s, lo, hi);
    if !bracketed_in(s, a, b) {
        return Err(SyntaxError::BadMemory);
    }
    let ghost st = s@.subrange(a as int, b as int);
    assert(st.subrange(1, st.len() - 1) =~= s@.subrange(a + 1, b - 1));
    let parts = split_ranges(s, a + 1, b - 1, '+');
    let (p0, q0) = parts[0];
    match reg_in(s, p0, q0, 'a') {
        None => Err(SyntaxError::BadMemory),
        Some(ab) => {
            if parts.len() >= 2 {
                let (p1, q1) = parts[1];
                match num_in(s, p1, q1) {
                    Some(off) => Ok((ab, off)),
                    None => Err(SyntaxError::BadMemory),
                }
            } else {
                Ok((ab, 0))
            }
        },
    }
}

/// `[addr]` in `s[lo..hi]` (see `mem_abs`).
fn mem_abs_in(s: &[char], lo: usize, hi: usize) -> (r: Result<u32, SyntaxError>)
    requires
        lo <= hi <= s@.len(),
    ensures
        r == mem_abs(s@.subrange(lo as int, hi as int)),
{
    let (a, b) = trim_range(s, lo, hi);
    if !bracketed_in(s, a, b) {
        return Err(SyntaxError::BadMemory);
    }
    let ghost st = s@.subrange(a as int, b as int);
    assert(st.subrange(1, st.len() - 1) =~= s@.subrange(a + 1, b - 1));
    match num_in(s, a + 1, b - 1) {
        Some(v) => Ok(v),
        None => Err(SyntaxError::BadMemory),
    }
}

/// Whether `s[lo..hi]` is a base-register memory operand (see `is_ab_form`).
fn is_ab_form_in(s: &[char], lo: usize, hi: usize) -> (r: bool)
    requires
        lo <= hi <= s@.len(),
    ensures
        r == is_ab_form(s@.subrange(lo as int, hi as int)),
{
    if hi > lo {
        assert(s@.subrange(lo as int, hi as int)[0] == s@[lo as int]);
    }
    hi > lo && s[lo] == '[' && find_in(s, lo, hi, 'a') < hi
}

// ----------------------------------------------------------------------------
// Operand shapes.
// ----------------------------------------------------------------------------

/// A third operand that may be a register or an immediate.
#[derive(Debug, Clone, Copy, PartialEq, Eq, Structural)]
pub enum Third {
    Reg(u32),
    Imm(u32),
}

/// A memory operand: base register and offset, or an absolute address.
#[derive(Debug, Clone, Copy, PartialEq, Eq, Structural)]
pub enum MemOp {
    Off(u32, u32),
    Abs(u32),
}

/// `dX, #imm` (or `aX, #imm` with `bank` `a`).
pub open spec fn shape_r_imm(p: Seq<Seq<char>>, bank: char) -> Result<(u32, u32), SyntaxError> {
    if p.len() != 2 {
        Err(SyntaxError::Operands)
    } else {
        match reg(p[0], bank) {
            None => Err(SyntaxError::BadRegister),
            Some(d) => match imm(p[1]) {
                None => Err(SyntaxError::BadImmediate),
                Some(v) => Ok((d, v)),
            },
        }
    }
}

/// Two registers of `bank`.
pub open spec fn shape_rr(p: Seq<Seq<char>>, bank: char) -> Result<(u32, u32), SyntaxError> {
    if p.len() != 2 {
        Err(SyntaxError::Operands)
    } else {
        match (reg(p[0], bank), reg(p[1], bank)) {
            (Some(x), Some(y)) => Ok((x, y)),
            _ => Err(SyntaxError::BadRegister),
        }
    }
}

/// Three data registers.
pub open spec fn shape_ddd(p: Seq<Seq<char>>) -> Result<(u32, u32, u32), SyntaxError> {
    if p.len() != 3 {
        Err(SyntaxError::Operands)
    } else {
        match (reg(p[0], 'd'), reg(p[1], 'd'), reg(p[2], 'd')) {
            (Some(x), Some(y), Some(z)) => Ok((x, y, z)),
            _ => Err(SyntaxError::BadRegister),
        }
    }
}

/// Two registers of `bank`, then an immediate.
pub open spec fn shape_rr_imm(p: Seq<Seq<char>>, bank: char) -> Result<(u32, u32, u32), SyntaxError> {
    if p.len() != 3 {
        Err(SyntaxError::Operands)
    } else {
        match (reg(p[0], bank), reg(p[1], bank)) {
            (Some(x), Some(y)) => match imm(p[2]) {
                Some(v) => Ok((x, y, v)),
                None => Err(SyntaxError::BadImmediate),
            },
            _ => Err(SyntaxError::BadRegister),
        }
    }
}

/// A data register or an immediate.
pub open spec fn third(s: Seq<char>) -> Result<Third, SyntaxError> {
    match reg(s, 'd') {
        Some(r) => Ok(Third::Reg(r)),
        None => match imm(s) {
            Some(v) => Ok(Third::Imm(v)),
            None => Err(SyntaxError::BadImmediate),
        },
    }
}

/// `dA, (dB|#imm)`.
pub open spec fn shape_d_x(p: Seq<Seq<char>>) -> Result<(u32, Third), SyntaxError> {
    if p.len() != 2 {
        Err(SyntaxError::Operands)
    } else {
        match reg(p[0], 'd') {
            None => Err(SyntaxError::BadRegister),
            Some(a) => match third(p[1]) {
                Ok(x) => Ok((a, x)),
                Err(e) => Err(e),
            },
        }
    }
}

/// `dC, dA, (dB|#imm)`.
pub open spec fn shape_dd_x(p: Seq<Seq<char>>) -> Result<(u32, u32, Third), SyntaxError> {
    if p.len() != 3 {
        Err(SyntaxError::Operands)
    } else {
        match (reg(p[0], 'd'), reg(p[1], 'd')) {
            (Some(x), Some(y)) => match third(p[2]) {
                Ok(z) => Ok((x, y, z)),
                Err(e) => Err(e),
            },
            _ => Err(SyntaxError::BadRegister),
        }
    }
}

/// Two registers of `bank`, then a target.
pub open spec fn shape_rr_t(p: Seq<Seq<char>>, bank: char) -> Result<(u32, u32, TargetView), SyntaxError> {
    if p.len() != 3 {
        Err(SyntaxError::Operands)
    } else {
        match (reg(p[0], bank), reg(p[1], bank)) {
            (Some(x), Some(y)) => Ok((x, y, target(p[2]))),
            _ => Err(SyntaxError::BadRegister),
        }
    }
}

/// An address register, then a target.
pub open spec fn shape_a_t(p: Seq<Seq<char>>) -> Result<(u32, TargetView), SyntaxError> {
    if p.len() != 2 {
        Err(SyntaxError::Operands)
    } else {
        match reg(p[0], 'a') {
            Some(x) => Ok((x, target(p[1]))),
            None => Err(SyntaxError::BadRegister),
        }
    }
}

/// A memory operand, trimmed: `[aN+off]` when it begins with `[` and holds
/// an `a`, else `[addr]`.
pub open spec fn mem_op(s: Seq<char>) -> Result<MemOp, SyntaxError> {
    let mem = trim(s);
    if is_ab_form(mem) {
        match mem_ab_off(mem) {
            Ok((ab, off)) => Ok(MemOp::Off(ab, off)),
            Err(e) => Err(e),
        }
    } else {
        match mem_abs(mem) {
            Ok(ea) => Ok(MemOp::Abs(ea)),
            Err(e) => Err(e),
        }
    }
}

/// A load, or LEA with `bank` `a`: register, then memory operand.
pub open spec fn shape_load(p: Seq<Seq<char>>, bank: char) -> Result<(u32, MemOp), SyntaxError> {
    if p.len() != 2 {
        Err(SyntaxError::Operands)
    } else {
        match reg(p[0], bank) {
            None => Err(SyntaxError::BadRegister),
            Some(rd) => match mem_op(p[1]) {
                Ok(m) => Ok((rd, m)),
                Err(e) => Err(e),
            },
        }
    }
}

/// A store: memory operand, then data register (read first).
pub open spec fn shape_store(p: Seq<Seq<char>>) -> Result<(MemOp, u32), SyntaxError> {
    if p.len() != 2 {
        Err(SyntaxError::Operands)
    } else {
        match reg(p[1], 'd') {
            None => Err(SyntaxError::BadRegister),
            Some(rs) => match mem_op(p[0]) {
                Ok(m) => Ok((m, rs)),
                Err(e) => Err(e),
            },
        }
    }
}

/// Whether `ops` are the trimmed bounds, within `r`, of the operands of `r`.
pub open spec fn ops_ok(r: Seq<char>, ops: Seq<(usize, usize)>) -> bool {
    &&& ops.len() == operands(r).len()
    &&& forall|k: int|
        0 <= k < ops.len() ==> #[trigger] ops[k].0 <= ops[k].1 <= r.len() && r.subrange(
            ops[k].0 as int,
            ops[k].1 as int,
        ) == operands(r)[k]
}

/// Whether `org` gives, for each character of `r`, its index in `line`, or
/// `usize::MAX` for an inserted space.
pub open spec fn origins_ok(line: Seq<char>, r: Seq<char>, org: Seq<usize>) -> bool {
    &&& org.len() == r.len()
    &&& forall|k: int|
        0 <= k < r.len() ==> (if #[trigger] org[k] == usize::MAX {
            r[k] == ' '
        } else {
            org[k] < line.len() && r[k] == line[org[k] as int]
        })
}

fn op_reg(r: &[char], ops: &Vec<(usize, usize)>, k: usize, bank: char) -> (x: Option<u32>)
    requires
        ops_ok(r@, ops@),
        k < ops@.len(),
    ensures
        x == reg(operands(r@)[k as int], bank),
{
    let (a, b) = ops[k];
    reg_in(r, a, b, bank)
}

fn op_imm(r: &[char], ops: &Vec<(usize, usize)>, k: usize) -> (x: Option<u32>)
    requires
        ops_ok(r@, ops@),
        k < ops@.len(),
    ensures
        x == imm(operands(r@)[k as int]),
{
    let (a, b) = ops[k];
    imm_in(r, a, b)
}

fn target_in(line: &str, r: &[char], org: &[usize], a: usize, b: usize) -> (t: Target)
    requires
        a <= b <= r@.len(),
        origins_ok(line@, r@, org@),
    ensures
        t@ == target(r@.subrange(a as int, b as int)),
{
    match num_in(r, a, b) {
        Some(v) => Target::Abs(v),
        None => Target::Label(string_from(line, r, org, a, b)),
    }
}

fn op_target(line: &str, r: &[char], org: &[usize], ops: &Vec<(usize, usize)>, k: usize) -> (t: Target)
    requires
        ops_ok(r@, ops@),
        origins_ok(line@, r@, org@),
        k < ops@.len(),
    ensures
        t@ == target(operands(r@)[k as int]),
{
    let (a, b) = ops[k];
    target_in(line, r, org, a, b)
}

fn op_third(r: &[char], ops: &Vec<(usize, usize)>, k: usize) -> (x: Result<Third, SyntaxError>)
    requires
        ops_ok(r@, ops@),
        k < ops@.len(),
    ensures
        x == third(operands(r@)[k as int]),
{
    match op_reg(r, ops, k, 'd') {
        Some(v) => Ok(Third::Reg(v)),
        None => match op_imm(r, ops, k) {
            Some(v) => Ok(Third::Imm(v)),
            None => Err(SyntaxError::BadImmediate),
        },
    }
}

fn op_mem(r: &[char], ops: &Vec<(usize, usize)>, k: usize) -> (x: Result<MemOp, SyntaxError>)
    requires
        ops_ok(r@, ops@),
        k < ops@.len(),
    ensures
        x == mem_op(operands(r@)[k as int]),
{
    let (a0, b0) = ops[k];
    let (a, b) = trim_range(r, a0, b0);
    if is_ab_form_in(r, a, b) {
        match mem_ab_off_in(r, a, b) {
            Ok((ab, off)) => Ok(MemOp::Off(ab, off)),
            Err(e) => Err(e),
        }
    } else {
        match mem_abs_in(r, a, b) {
            Ok(ea) => Ok(MemOp::Abs(ea)),
            Err(e) => Err(e),
        }
    }
}

fn sh_r_imm(r: &[char], ops: &Vec<(usize, usize)>, bank: char) -> (x: Result<(u32, u32), SyntaxError>)
    requires
        ops_ok(r@, ops@),
    ensures
        x == shape_r_imm(operands(r@), bank),
{
    if ops.len() != 2 {
        return Err(SyntaxError::Operands);
    }
    match op_reg(r, ops, 0, bank) {
        None => Err(SyntaxError::BadRegister),
        Some(d) => match op_imm(r, ops, 1) {
            None => Err(SyntaxError::BadImmediate),
            Some(v) => Ok((d, v)),
        },
    }
}

fn sh_rr(r: &[char], ops: &Vec<(usize, usize)>, bank: char) -> (x: Result<(u32, u32), SyntaxError>)
    requires
        ops_ok(r@, ops@),
    ensures
        x == shape_rr(operands(r@), bank),
{
    if ops.len() != 2 {
        return Err(SyntaxError::Operands);
    }
    match (op_reg(r, ops, 0, bank), op_reg(r, ops, 1, bank)) {
        (Some(x), Some(y)) => Ok((x, y)),
        _ => Err(SyntaxError::BadRegister),
    }
}

fn sh_ddd(r: &[char], ops: &Vec<(usize, usize)>) -> (x: Result<(u32, u32, u32), SyntaxError>)
    requires
        ops_ok(r@, ops@),
    ensures
        x == shape_ddd(operands(r@)),
{
    if ops.len() != 3 {
        return Err(SyntaxError::Operands);
    }
    match (op_reg(r, ops, 0, 'd'), op_reg(r, ops, 1, 'd'), op_reg(r, ops, 2, 'd')) {
        (Some(x), Some(y), Some(z)) => Ok((x, y, z)),
        _ => Err(SyntaxError::BadRegister),
    }
}

fn sh_rr_imm(r: &[char], ops: &Vec<(usize, usize)>, bank: char) -> (x: Result<(u32, u32, u32), SyntaxError>)
    requires
        ops_ok(r@, ops@),
    ensures
        x == shape_rr_imm(operands(r@), bank),
{
    if ops.len() != 3 {
        return Err(SyntaxError::Operands);
    }
    match (op_reg(r, ops, 0, bank), op_reg(r, ops, 1, bank)) {
        (Some(x), Some(y)) => match op_imm(r, ops, 2) {
            Some(v) => Ok((x, y, v)),
            None => Err(SyntaxError::BadImmediate),
        },
        _ => Err(SyntaxError::BadRegister),
    }
}

fn sh_d_x(r: &[char], ops: &Vec<(usize, usize)>) -> (x: Result<(u32, Third), SyntaxError>)
    requires
        ops_ok(r@, ops@),
    ensures
        x == shape_d_x(operands(r@)),
{
    if ops.len() != 2 {
        return Err(SyntaxError::Operands);
    }
    match op_reg(r, ops, 0, 'd') {
        None => Err(SyntaxError::BadRegister),
        Some(a) => match op_third(r, ops, 1) {
            Ok(t) => Ok((a, t)),
            Err(e) => Err(e),
        },
    }
}

fn sh_dd_x(r: &[char], ops: &Vec<(usize, usize)>) -> (x: Result<(u32, u32, Third), SyntaxError>)
    requires
        ops_ok(r@, ops@),
    ensures
        x == shape_dd_x(operands(r@)),
{
    if ops.len() != 3 {
        return Err(SyntaxError::Operands);
    }
    match (op_reg(r, ops, 0, 'd'), op_reg(r, ops, 1, 'd')) {
        (Some(x), Some(y)) => match op_third(r, ops, 2) {
            Ok(z) => Ok((x, y, z)),
            Err(e) => Err(e),
        },
        _ => Err(SyntaxError::BadRegister),
    }
}

fn sh_rr_t(line: &str, r: &[char], org: &[usize], ops: &Vec<(usize, usize)>, bank: char) -> (x: Result<
    (u32, u32, Target),
    SyntaxError,
>)
    requires
        ops_ok(r@, ops@),
        origins_ok(line@, r@, org@),
    ensures
        match (x, shape_rr_t(operands(r@), bank)) {
            (Ok((a, b, t)), Ok((a2, b2, t2))) => a == a2 && b == b2 && t@ == t2,
            (Err(e), Err(e2)) => e == e2,
            _ => false,
        },
{
    if ops.len() != 3 {
        return Err(SyntaxError::Operands);
    }
    match (op_reg(r, ops, 0, bank), op_reg(r, ops, 1, bank)) {
        (Some(x), Some(y)) => Ok((x, y, op_target(line, r, org, ops, 2))),
        _ => Err(SyntaxError::BadRegister),
    }
}

fn sh_a_t(line: &str, r: &[char], org: &[usize], ops: &Vec<(usize, usize)>) -> (x: Result<(u32, Target), SyntaxError>)
    requires
        ops_ok(r@, ops@),
        origins_ok(line@, r@, org@),
    ensures
        match (x, shape_a_t(operands(r@))) {
            (Ok((a, t)), Ok((a2, t2))) => a == a2 && t@ == t2,
            (Err(e), Err(e2)) => e == e2,
            _ => false,
        },
{
    if ops.len() != 2 {
        return Err(SyntaxError::Operands);
    }
    match op_reg(r, ops, 0, 'a') {
        Some(x) => Ok((x, op_target(line, r, org, ops, 1))),
        None => Err(SyntaxError::BadRegister),
    }
}

fn sh_load(r: &[char], ops: &Vec<(usize, usize)>, bank: char) -> (x: Result<(u32, MemOp), SyntaxError>)
    requires
        ops_ok(r@, ops@),
    ensures
        x == shape_load(operands(r@), bank),
{
    if ops.len() != 2 {
        return Err(SyntaxError::Operands);
    }
    match op_reg(r, ops, 0, bank) {
        None => Err(SyntaxError::BadRegister),
        Some(rd) => match op_mem(r, ops, 1) {
            Ok(m) => Ok((rd, m)),
            Err(e) => Err(e),
        },
    }
}

fn sh_store(r: &[char], ops: &Vec<(usize, usize)>) -> (x: Result<(MemOp, u32), SyntaxError>)
    requires
        ops_ok(r@, ops@),
    ensures
        x == shape_store(operands(r@)),
{
    if ops.len() != 2 {
        return Err(SyntaxError::Operands);
    }
    match op_reg(r, ops, 1, 'd') {
        None => Err(SyntaxError::BadRegister),
        Some(rs) => match op_mem(r, ops, 0) {
            Ok(m) => Ok((m, rs)),
            Err(e) => Err(e),
        },
    }
}

// ----------------------------------------------------------------------------
// Instructions.
// ----------------------------------------------------------------------------

/// Whether an executable result reads as the specified one.
pub open spec fn same_res(x: Result<Item, SyntaxError>, v: Result<ItemView, SyntaxError>) -> bool {
    match (x, v) {
        (Ok(i), Ok(w)) => i@ == w,
        (Err(e), Err(f)) => e == f,
        _ => false,
    }
}

/// `same_res` for a mnemonic group, `None` when the mnemonic is not one of it.
pub open spec fn same_opt(x: Option<Result<Item, SyntaxError>>, v: Option<Result<ItemView, SyntaxError>>) -> bool {
    match (x, v) {
        (None, None) => true,
        (Some(a), Some(b)) => same_res(a, b),
        _ => false,
    }
}

/// An instruction item from a successful operand shape.
pub open spec fn instr_or<T>(r: Result<T, SyntaxError>, f: spec_fn(T) -> Inst) -> Result<ItemView, SyntaxError> {
    match r {
        Ok(x) => Ok(ItemView::Instr(f(x))),
        Err(e) => Err(e),
    }
}

/// Moves, address arithmetic, NOT, the extension macros, data words and the
/// absolute and indirect calls.
pub open spec fn group_moves(mn: Seq<char>, rest: Seq<char>) -> Option<Result<ItemView, SyntaxError>> {
    let p = operands(rest);
    if mn == "movu"@ {
        Some(instr_or(shape_r_imm(p, 'd'), |x: (u32, u32)| Inst::MovU { d: x.0, imm16: x.1 & 0xFFFF }))
    } else if mn == "mov"@ {
        Some(
            instr_or(
                shape_r_imm(p, 'd'),
                |x: (u32, u32)|
                    if x.1 <= 0xF {
                        Inst::Mov16 { d: x.0, imm4: x.1 }
                    } else {
                        Inst::MovU { d: x.0, imm16: x.1 & 0xFFFF }
                    },
            ),
        )
    } else if mn == "add"@ {
        Some(instr_or(shape_ddd(p), |x: (u32, u32, u32)| Inst::AddRR { rd: x.0, ra: x.1, rb: x.2 }))
    } else if mn == "sub"@ {
        Some(instr_or(shape_ddd(p), |x: (u32, u32, u32)| Inst::SubRR { rd: x.0, ra: x.1, rb: x.2 }))
    } else if mn == "movh.a"@ {
        Some(instr_or(shape_r_imm(p, 'a'), |x: (u32, u32)| Inst::MovHAa { rd: x.0, imm16: x.1 & 0xFFFF }))
    } else if mn == "addih.a"@ {
        Some(
            instr_or(
                shape_rr_imm(p, 'a'),
                |x: (u32, u32, u32)| Inst::AddihA { rd: x.0, ra: x.1, imm16: x.2 & 0xFFFF },
            ),
        )
    } else if mn == "lea"@ {
        Some(
            instr_or(
                shape_load(p, 'a'),
                |x: (u32, MemOp)|
                    match x.1 {
                        MemOp::Off(rb, off) => Inst::LeaAb { rd: x.0, rb, off: off as i32 },
                        MemOp::Abs(ea) => Inst::LeaAbs { rd: x.0, ea },
                    },
            ),
        )
    } else if mn == "mov.a"@ {
        Some(instr_or(shape_rr(p, 'a'), |x: (u32, u32)| Inst::LeaAb { rd: x.0, rb: x.1, off: 0 }))
    } else if mn == "not"@ {
        Some(instr_or(shape_rr(p, 'd'), |x: (u32, u32)| Inst::NotR { rd: x.0, ra: x.1 }))
    } else if mn == "zext.b"@ {
        Some(instr_or(shape_rr(p, 'd'), |x: (u32, u32)| Inst::ZextB { rd: x.0, ra: x.1 }))
    } else if mn == "zext.h"@ {
        Some(instr_or(shape_rr(p, 'd'), |x: (u32, u32)| Inst::ZextH { rd: x.0, ra: x.1 }))
    } else if mn == "sext.b"@ {
        Some(instr_or(shape_rr(p, 'd'), |x: (u32, u32)| Inst::SextB { rd: x.0, ra: x.1 }))
    } else if mn == "sext.h"@ {
        Some(instr_or(shape_rr(p, 'd'), |x: (u32, u32)| Inst::SextH { rd: x.0, ra: x.1 }))
    } else if mn == "calla"@ {
        Some(
            match num(rest) {
                Some(ea) => Ok(ItemView::Instr(Inst::CallA { ea })),
                None => Err(SyntaxError::BadImmediate),
            },
        )
    } else if mn == "calli"@ {
        Some(
            match reg(rest, 'a') {
                Some(a) => Ok(ItemView::Instr(Inst::CallI { a })),
                None => Err(SyntaxError::BadRegister),
            },
        )
    } else if mn == ".word"@ {
        Some(
            match num(rest) {
                Some(val) => Ok(ItemView::Instr(Inst::Word { val })),
                None => Err(SyntaxError::BadImmediate),
            },
        )
    } else if mn == ".byte"@ {
        Some(
            match num(rest) {
                Some(v) => Ok(ItemView::Instr(Inst::Byte { val: (v & 0xFF) as u8 })),
                None => Err(SyntaxError::BadImmediate),
            },
        )
    } else {
        None
    }
}

/// Whether `mn` is exactly `lit`.
fn is(mn: &Vec<char>, lit: &str) -> (r: bool)
    ensures
        r == (mn@ == lit@),
{
    assert(mn@.subrange(0, mn@.len() as int) =~= mn@);
    range_is(mn.as_slice(), 0, mn.len(), lit)
}

fn exec_group_moves(line: &str, mn: &Vec<char>, r: &[char], org: &[usize], ops: &Vec<(usize, usize)>) -> (x: Option<
    Result<Item, SyntaxError>,
>)
    requires
        ops_ok(r@, ops@),
        origins_ok(line@, r@, org@),
    ensures
        same_opt(x, group_moves(mn@, r@)),
{
    let all = r.len();
    assert(r@.subrange(0, all as int) =~= r@);
    if is(mn, "movu") {
        Some(match sh_r_imm(r, ops, 'd') {
            Ok((d, v)) => Ok(Item::Instr(Inst::MovU { d, imm16: v & 0xFFFF })),
            Err(e) => Err(e),
        })
    } else if is(mn, "mov") {
        Some(match sh_r_imm(r, ops, 'd') {
            Ok((d, v)) => Ok(Item::Instr(if v <= 0xF {
                Inst::Mov16 { d, imm4: v }
            } else {
                Inst::MovU { d, imm16: v & 0xFFFF }
            })),
            Err(e) => Err(e),
        })
    } else if is(mn, "add") {
        Some(match sh_ddd(r, ops) {
            Ok((rd, ra, rb)) => Ok(Item::Instr(Inst::AddRR { rd, ra, rb })),
            Err(e) => Err(e),
        })
    } else if is(mn, "sub") {
        Some(match sh_ddd(r, ops) {
            Ok((rd, ra, rb)) => Ok(Item::Instr(Inst::SubRR { rd, ra, rb })),
            Err(e) => Err(e),
        })
    } else if is(mn, "movh.a") {
        Some(match sh_r_imm(r, ops, 'a') {
            Ok((rd, v)) => Ok(Item::Instr(Inst::MovHAa { rd, imm16: v & 0xFFFF })),
            Err(e) => Err(e),
        })
    } else if is(mn, "addih.a") {
        Some(match sh_rr_imm(r, ops, 'a') {
            Ok((rd, ra, v)) => Ok(Item::Instr(Inst::AddihA { rd, ra, imm16: v & 0xFFFF })),
            Err(e) => Err(e),
        })
    } else if is(mn, "lea") {
        Some(match sh_load(r, ops, 'a') {
            Ok((rd, MemOp::Off(rb, off))) => Ok(Item::Instr(Inst::LeaAb { rd, rb, off: off as i32 })),
            Ok((rd, MemOp::Abs(ea))) => Ok(Item::Instr(Inst::LeaAbs { rd, ea })),
            Err(e) => Err(e),
        })
    } else if is(mn, "mov.a") {
        Some(match sh_rr(r, ops, 'a') {
            Ok((rd, ra)) => Ok(Item::Instr(Inst::LeaAb { rd, rb: ra, off: 0 })),
            Err(e) => Err(e),
        })
    } else if is(mn, "not") {
        Some(match sh_rr(r, ops, 'd') {
            Ok((rd, ra)) => Ok(Item::Instr(Inst::NotR { rd, ra })),
            Err(e) => Err(e),
        })
    } else if is(mn, "zext.b") {
        Some(match sh_rr(r, ops, 'd') {
            Ok((rd, ra)) => Ok(Item::Instr(Inst::ZextB { rd, ra })),
            Err(e) => Err(e),
        })
    } else if is(mn, "zext.h") {
        Some(match sh_rr(r, ops, 'd') {
            Ok((rd, ra)) => Ok(Item::Instr(Inst::ZextH { rd, ra })),
            Err(e) => Err(e),
        })
    } else if is(mn, "sext.b") {
        Some(match sh_rr(r, ops, 'd') {
            Ok((rd, ra)) => Ok(Item::Instr(Inst::SextB { rd, ra })),
            Err(e) => Err(e),
        })
    } else if is(mn, "sext.h") {
        Some(match sh_rr(r, ops, 'd') {
            Ok((rd, ra)) => Ok(Item::Instr(Inst::SextH { rd, ra })),
            Err(e) => Err(e),
        })
    } else if is(mn, "calla") {
        Some(match num_in(r, 0, all) {
            Some(ea) => Ok(Item::Instr(Inst::CallA { ea })),
            None => Err(SyntaxError::BadImmediate),
        })
    } else if is(mn, "calli") {
        Some(match reg_in(r, 0, all, 'a') {
            Some(a) => Ok(Item::Instr(Inst::CallI { a })),
            None => Err(SyntaxError::BadRegister),
        })
    } else if is(mn, ".word") {
        Some(match num_in(r, 0, all) {
            Some(val) => Ok(Item::Instr(Inst::Word { val })),
            None => Err(SyntaxError::BadImmediate),
        })
    } else if is(mn, ".byte") {
        Some(match num_in(r, 0, all) {
            Some(v) => Ok(Item::Instr(Inst::Byte { val: (v & 0xFF) as u8 })),
            None => Err(SyntaxError::BadImmediate),
        })
    } else {
        None
    }
}

/// A load of kind `k` (0 LD.BU, 1 LD.B, 2 LD.H, 3 LD.HU, 4 LD.W); the
/// base-register form keeps the low 16 bits of the offset.
pub open spec fn load_inst(k: u8, rd: u32, m: MemOp) -> Inst {
    match m {
        MemOp::Off(ab, off) => {
            let off16 = off & 0xFFFF;
            if k == 0 {
                Inst::LdBuOff16 { rd, ab, off16 }
            } else if k == 1 {
                Inst::LdBOff16 { rd, ab, off16 }
            } else if k == 2 {
                Inst::LdHOff16 { rd, ab, off16 }
            } else if k == 3 {
                Inst::LdHuOff16 { rd, ab, off16 }
            } else {
                Inst::LdWOff16 { rd, ab, off16 }
            }
        },
        MemOp::Abs(ea) => if k == 0 {
            Inst::LdBuAbs { rd, ea }
        } else if k == 1 {
            Inst::LdBAbs { rd, ea }
        } else if k == 2 {
            Inst::LdHAbs { rd, ea }
        } else if k == 3 {
            Inst::LdHuAbs { rd, ea }
        } else {
            Inst::LdWAbs { rd, ea }
        },
    }
}

/// A store of kind `k` (0 ST.B, 1 ST.H, 2 ST.W).
pub open spec fn store_inst(k: u8, m: MemOp, rs: u32) -> Inst {
    match m {
        MemOp::Off(ab, off) => {
            let off16 = off & 0xFFFF;
            if k == 0 {
                Inst::StBOff16 { ab, rs, off16 }
            } else if k == 1 {
                Inst::StHOff16 { ab, rs, off16 }
            } else {
                Inst::StWOff16 { ab, rs, off16 }
            }
        },
        MemOp::Abs(ea) => if k == 0 {
            Inst::StBAbs { rs, ea }
        } else if k == 1 {
            Inst::StHAbs { rs, ea }
        } else {
            Inst::StWAbs { rs, ea }
        },
    }
}

/// The kind of a load mnemonic, if it is one.
pub open spec fn load_kind(mn: Seq<char>) -> Option<u8> {
    if mn == "ld.bu"@ {
        Some(0)
    } else if mn == "ld.b"@ {
        Some(1)
    } else if mn == "ld.h"@ {
        Some(2)
    } else if mn == "ld.hu"@ {
        Some(3)
    } else if mn == "ld.w"@ {
        Some(4)
    } else {
        None
    }
}

/// The kind of a store mnemonic, if it is one.
pub open spec fn store_kind(mn: Seq<char>) -> Option<u8> {
    if mn == "st.b"@ {
        Some(0)
    } else if mn == "st.h"@ {
        Some(1)
    } else if mn == "st.w"@ {
        Some(2)
    } else {
        None
    }
}

/// Loads and stores: `ld.* dA, [aB+off]|[addr]` and `st.* [aB+off]|[addr], dA`.
pub open spec fn group_memory(mn: Seq<char>, rest: Seq<char>) -> Option<Result<ItemView, SyntaxError>> {
    let p = operands(rest);
    match load_kind(mn) {
        Some(k) => Some(instr_or(shape_load(p, 'd'), |x: (u32, MemOp)| load_inst(k, x.0, x.1))),
        None => match store_kind(mn) {
            Some(k) => Some(instr_or(shape_store(p), |x: (MemOp, u32)| store_inst(k, x.0, x.1))),
            None => None,
        },
    }
}

fn load_inst_of(k: u8, rd: u32, m: MemOp) -> (i: Inst)
    ensures
        i == load_inst(k, rd, m),
{
    match m {
        MemOp::Off(ab, off) => {
            let off16 = off & 0xFFFF;
            if k == 0 {
                Inst::LdBuOff16 { rd, ab, off16 }
            } else if k == 1 {
                Inst::LdBOff16 { rd, ab, off16 }
            } else if k == 2 {
                Inst::LdHOff16 { rd, ab, off16 }
            } else if k == 3 {
                Inst::LdHuOff16 { rd, ab, off16 }
            } else {
                Inst::LdWOff16 { rd, ab, off16 }
            }
        },
        MemOp::Abs(ea) => if k == 0 {
            Inst::LdBuAbs { rd, ea }
        } else if k == 1 {
            Inst::LdBAbs { rd, ea }
        } else if k == 2 {
            Inst::LdHAbs { rd, ea }
        } else if k == 3 {
            Inst::LdHuAbs { rd, ea }
        } else {
            Inst::LdWAbs { rd, ea }
        },
    }
}

fn store_inst_of(k: u8, m: MemOp, rs: u32) -> (i: Inst)
    ensures
        i == store_inst(k, m, rs),
{
    match m {
        MemOp::Off(ab, off) => {
            let off16 = off & 0xFFFF;
            if k == 0 {
                Inst::StBOff16 { ab, rs, off16 }
            } else if k == 1 {
                Inst::StHOff16 { ab, rs, off16 }
            } else {
                Inst::StWOff16 { ab, rs, off16 }
            }
        },
        MemOp::Abs(ea) => if k == 0 {
            Inst::StBAbs { rs, ea }
        } else if k == 1 {
            Inst::StHAbs { rs, ea }
        } else {
            Inst::StWAbs { rs, ea }
        },
    }
}

fn exec_group_memory(mn: &Vec<char>, r: &[char], ops: &Vec<(usize, usize)>) -> (x: Option<Result<Item, SyntaxError>>)
    requires
        ops_ok(r@, ops@),
    ensures
        same_opt(x, group_memory(mn@, r@)),
{
    let lk: Option<u8> = if is(mn, "ld.bu") {
        Some(0)
    } else if is(mn, "ld.b") {
        Some(1)
    } else if is(mn, "ld.h") {
        Some(2)
    } else if is(mn, "ld.hu") {
        Some(3)
    } else if is(mn, "ld.w") {
        Some(4)
    } else {
        None
    };
    assert(lk == load_kind(mn@));
    match lk {
        Some(k) => {
            return Some(match sh_load(r, ops, 'd') {
                Ok((rd, m)) => Ok(Item::Instr(load_inst_of(k, rd, m))),
                Err(e) => Err(e),
            });
        },
        None => {},
    }
    let sk: Option<u8> = if is(mn, "st.b") {
        Some(0)
    } else if is(mn, "st.h") {
        Some(1)
    } else if is(mn, "st.w") {
        Some(2)
    } else {
        None
    };
    assert(sk == store_kind(mn@));
    match sk {
        Some(k) => Some(match sh_store(r, ops) {
            Ok((m, rs)) => Ok(Item::Instr(store_inst_of(k, m, rs))),
            Err(e) => Err(e),
        }),
        None => None,
    }
}

/// The kind of a shift mnemonic: 0 shl, 1 shr, 2 sar, 3 ror.
pub open spec fn shift_kind(mn: Seq<char>) -> Option<u8> {
    if mn == "shl"@ {
        Some(0)
    } else if mn == "shr"@ {
        Some(1)
    } else if mn == "sar"@ {
        Some(2)
    } else if mn == "ror"@ {
        Some(3)
    } else {
        None
    }
}

/// The kind of a logical mnemonic: 0 and, 1 or, 2 xor.
pub open spec fn logic_kind(mn: Seq<char>) -> Option<u8> {
    if mn == "and"@ {
        Some(0)
    } else if mn == "or"@ {
        Some(1)
    } else if mn == "xor"@ {
        Some(2)
    } else {
        None
    }
}

/// AND, OR or XOR with a nine-bit constant.
pub open spec fn logic_ri(k: u8, rd: u32, ra: u32, imm9: u32) -> Inst {
    if k == 0 {
        Inst::AndRI { rd, ra, imm9 }
    } else if k == 1 {
        Inst::OrRI { rd, ra, imm9 }
    } else {
        Inst::XorRI { rd, ra, imm9 }
    }
}

/// The 16-bit AND, OR or XOR.
pub open spec fn logic_rr16(k: u8, ra: u32, rb: u32) -> Inst {
    if k == 0 {
        Inst::AndRR16 { ra, rb }
    } else if k == 1 {
        Inst::OrRR16 { ra, rb }
    } else {
        Inst::XorRR16 { ra, rb }
    }
}

/// Compares, shifts, ANDN, min/max, multiply, divide, add with carry or
/// extend, and the logical operations.
pub open spec fn group_alu(mn: Seq<char>, rest: Seq<char>) -> Option<Result<ItemView, SyntaxError>> {
    let p = operands(rest);
    if mn == "cmp"@ || mn == "cmp.u"@ {
        let u = mn == "cmp.u"@;
        Some(
            instr_or(
                shape_d_x(p),
                |x: (u32, Third)|
                    match x.1 {
                        Third::Reg(b) => Inst::CmpRR { a: x.0, b, unsigned: u },
                        Third::Imm(v) => Inst::CmpRI { a: x.0, imm: v, unsigned: u },
                    },
            ),
        )
    } else if shift_kind(mn) is Some {
        let k = shift_kind(mn)->0;
        Some(
            instr_or(
                shape_dd_x(p),
                |x: (u32, u32, Third)|
                    match x.2 {
                        Third::Reg(rb) => Inst::ShRR { rd: x.0, ra: x.1, rb, kind: k },
                        Third::Imm(v) => Inst::ShRI { rd: x.0, ra: x.1, imm: v & 31, kind: k },
                    },
            ),
        )
    } else if mn == "andn"@ {
        Some(
            instr_or(
                shape_dd_x(p),
                |x: (u32, u32, Third)|
                    match x.2 {
                        Third::Reg(rb) => Inst::AndnRR { rd: x.0, ra: x.1, rb },
                        Third::Imm(v) => Inst::AndnRI { rd: x.0, ra: x.1, imm: v },
                    },
            ),
        )
    } else if mn == "min"@ || mn == "min.u"@ || mn == "max"@ || mn == "max.u"@ {
        let is_min = mn == "min"@ || mn == "min.u"@;
        let u = mn == "min.u"@ || mn == "max.u"@;
        Some(
            instr_or(
                shape_dd_x(p),
                |x: (u32, u32, Third)|
                    match x.2 {
                        Third::Reg(rb) => if is_min {
                            Inst::MinRR { rd: x.0, ra: x.1, rb, unsigned: u }
                        } else {
                            Inst::MaxRR { rd: x.0, ra: x.1, rb, unsigned: u }
                        },
                        Third::Imm(v) => if is_min {
                            Inst::MinRI { rd: x.0, ra: x.1, imm: v, unsigned: u }
                        } else {
                            Inst::MaxRI { rd: x.0, ra: x.1, imm: v, unsigned: u }
                        },
                    },
            ),
        )
    } else if mn == "mul"@ || mn == "mul.u"@ {
        let u = mn == "mul.u"@;
        Some(
            instr_or(
                shape_dd_x(p),
                |x: (u32, u32, Third)|
                    match x.2 {
                        Third::Reg(rb) => Inst::MulRR { rd: x.0, ra: x.1, rb, unsigned: u },
                        Third::Imm(v) => Inst::MulRI { rd: x.0, ra: x.1, imm: v, unsigned: u },
                    },
            ),
        )
    } else if mn == "div"@ || mn == "div.u"@ {
        let u = mn == "div.u"@;
        Some(instr_or(shape_ddd(p), |x: (u32, u32, u32)| Inst::DivRR { rd: x.0, ra: x.1, rb: x.2, unsigned: u }))
    } else if mn == "addc"@ || mn == "addx"@ {
        let is_addx = mn == "addx"@;
        Some(
            instr_or(
                shape_dd_x(p),
                |x: (u32, u32, Third)|
                    match x.2 {
                        Third::Reg(rb) => if is_addx {
                            Inst::AddxRR { rd: x.0, ra: x.1, rb }
                        } else {
                            Inst::AddcRR { rd: x.0, ra: x.1, rb }
                        },
                        Third::Imm(v) => if is_addx {
                            Inst::AddxRI { rd: x.0, ra: x.1, imm: v }
                        } else {
                            Inst::AddcRI { rd: x.0, ra: x.1, imm: v }
                        },
                    },
            ),
        )
    } else if logic_kind(mn) is Some {
        let k = logic_kind(mn)->0;
        if index_of(rest, '#') < rest.len() {
            Some(instr_or(shape_rr_imm(p, 'd'), |x: (u32, u32, u32)| logic_ri(k, x.0, x.1, x.2 & 0x1FF)))
        } else {
            Some(
                match shape_ddd(p) {
                    Ok((rd, ra, rb)) => if rd != ra {
                        Err(SyntaxError::SameRegister)
                    } else {
                        Ok(ItemView::Instr(logic_rr16(k, ra, rb)))
                    },
                    Err(e) => Err(e),
                },
            )
        }
    } else {
        None
    }
}

fn exec_group_alu(mn: &Vec<char>, r: &[char], ops: &Vec<(usize, usize)>) -> (x: Option<Result<Item, SyntaxError>>)
    requires
        ops_ok(r@, ops@),
    ensures
        same_opt(x, group_alu(mn@, r@)),
{
    let all = r.len();
    assert(r@.subrange(0, all as int) =~= r@);
    if is(mn, "cmp") || is(mn, "cmp.u") {
        let u = is(mn, "cmp.u");
        return Some(match sh_d_x(r, ops) {
            Ok((a, Third::Reg(b))) => Ok(Item::Instr(Inst::CmpRR { a, b, unsigned: u })),
            Ok((a, Third::Imm(v))) => Ok(Item::Instr(Inst::CmpRI { a, imm: v, unsigned: u })),
            Err(e) => Err(e),
        });
    }
    let sk: Option<u8> = if is(mn, "shl") {
        Some(0)
    } else if is(mn, "shr") {
        Some(1)
    } else if is(mn, "sar") {
        Some(2)
    } else if is(mn, "ror") {
        Some(3)
    } else {
        None
    };
    assert(sk == shift_kind(mn@));
    if let Some(k) = sk {
        return Some(match sh_dd_x(r, ops) {
            Ok((rd, ra, Third::Reg(rb))) => Ok(Item::Instr(Inst::ShRR { rd, ra, rb, kind: k })),
            Ok((rd, ra, Third::Imm(v))) => Ok(Item::Instr(Inst::ShRI { rd, ra, imm: v & 31, kind: k })),
            Err(e) => Err(e),
        });
    }
    if is(mn, "andn") {
        return Some(match sh_dd_x(r, ops) {
            Ok((rd, ra, Third::Reg(rb))) => Ok(Item::Instr(Inst::AndnRR { rd, ra, rb })),
            Ok((rd, ra, Third::Imm(v))) => Ok(Item::Instr(Inst::AndnRI { rd, ra, imm: v })),
            Err(e) => Err(e),
        });
    }
    if is(mn, "min") || is(mn, "min.u") || is(mn, "max") || is(mn, "max.u") {
        let is_min = is(mn, "min") || is(mn, "min.u");
        let u = is(mn, "min.u") || is(mn, "max.u");
        return Some(match sh_dd_x(r, ops) {
            Ok((rd, ra, Third::Reg(rb))) => Ok(Item::Instr(if is_min {
                Inst::MinRR { rd, ra, rb, unsigned: u }
            } else {
                Inst::MaxRR { rd, ra, rb, unsigned: u }
            })),
            Ok((rd, ra, Third::Imm(v))) => Ok(Item::Instr(if is_min {
                Inst::MinRI { rd, ra, imm: v, unsigned: u }
            } else {
                Inst::MaxRI { rd, ra, imm: v, unsigned: u }
            })),
            Err(e) => Err(e),
        });
    }
    if is(mn, "mul") || is(mn, "mul.u") {
        let u = is(mn, "mul.u");
        return Some(match sh_dd_x(r, ops) {
            Ok((rd, ra, Third::Reg(rb))) => Ok(Item::Instr(Inst::MulRR { rd, ra, rb, unsigned: u })),
            Ok((rd, ra, Third::Imm(v))) => Ok(Item::Instr(Inst::MulRI { rd, ra, imm: v, unsigned: u })),
            Err(e) => Err(e),
        });
    }
    if is(mn, "div") || is(mn, "div.u") {
        let u = is(mn, "div.u");
        return Some(match sh_ddd(r, ops) {
            Ok((rd, ra, rb)) => Ok(Item::Instr(Inst::DivRR { rd, ra, rb, unsigned: u })),
            Err(e) => Err(e),
        });
    }
    if is(mn, "addc") || is(mn, "addx") {
        let is_addx = is(mn, "addx");
        return Some(match sh_dd_x(r, ops) {
            Ok((rd, ra, Third::Reg(rb))) => Ok(Item::Instr(if is_addx {
                Inst::AddxRR { rd, ra, rb }
            } else {
                Inst::AddcRR { rd, ra, rb }
            })),
            Ok((rd, ra, Third::Imm(v))) => Ok(Item::Instr(if is_addx {
                Inst::AddxRI { rd, ra, imm: v }
            } else {
                Inst::AddcRI { rd, ra, imm: v }
            })),
            Err(e) => Err(e),
        });
    }
    let lk: Option<u8> = if is(mn, "and") {
        Some(0)
    } else if is(mn, "or") {
        Some(1)
    } else if is(mn, "xor") {
        Some(2)
    } else {
        None
    };
    assert(lk == logic_kind(mn@));
    match lk {
        Some(k) => {
            if find_in(r, 0, all, '#') < all {
                Some(match sh_rr_imm(r, ops, 'd') {
                    Ok((rd, ra, v)) => Ok(Item::Instr(if k == 0 {
                        Inst::AndRI { rd, ra, imm9: v & 0x1FF }
                    } else if k == 1 {
                        Inst::OrRI { rd, ra, imm9: v & 0x1FF }
                    } else {
                        Inst::XorRI { rd, ra, imm9: v & 0x1FF }
                    })),
                    Err(e) => Err(e),
                })
            } else {
                Some(match sh_ddd(r, ops) {
                    Ok((rd, ra, rb)) => if rd != ra {
                        Err(SyntaxError::SameRegister)
                    } else {
                        Ok(Item::Instr(if k == 0 {
                            Inst::AndRR16 { ra, rb }
                        } else if k == 1 {
                            Inst::OrRR16 { ra, rb }
                        } else {
                            Inst::XorRR16 { ra, rb }
                        }))
                    },
                    Err(e) => Err(e),
                })
            }
        },
        None => None,
    }
}

/// The kind of a two-register conditional jump: 0 jeq, 1 jne, 2 jge.u,
/// 3 jlt.u, 4 jge, 5 jlt (data registers), 6 jeq.a, 7 jne.a (address
/// registers).
pub open spec fn rr_jump_kind(mn: Seq<char>) -> Option<u8> {
    if mn == "jeq"@ {
        Some(0)
    } else if mn == "jne"@ {
        Some(1)
    } else if mn == "jge.u"@ {
        Some(2)
    } else if mn == "jlt.u"@ {
        Some(3)
    } else if mn == "jge"@ {
        Some(4)
    } else if mn == "jlt"@ {
        Some(5)
    } else if mn == "jeq.a"@ {
        Some(6)
    } else if mn == "jne.a"@ {
        Some(7)
    } else {
        None
    }
}

/// The two-register jump of kind `k`.
pub open spec fn rr_jump(k: u8, a: u32, b: u32) -> Jump {
    if k == 0 {
        Jump::JeqRR { a, b }
    } else if k == 1 {
        Jump::JneRR { a, b }
    } else if k == 2 {
        Jump::JgeURR { a, b }
    } else if k == 3 {
        Jump::JltURR { a, b }
    } else if k == 4 {
        Jump::JgeRR { a, b, unsigned: false }
    } else if k == 5 {
        Jump::JltRR { a, b, unsigned: false }
    } else if k == 6 {
        Jump::JeqARR { ra: a, rb: b }
    } else {
        Jump::JneARR { ra: a, rb: b }
    }
}

/// The kind of a flag branch: 0 beq, 1 bne, 2 bge, 3 blt, 4 bge.u, 5 blt.u.
pub open spec fn flag_kind(mn: Seq<char>) -> Option<u8> {
    if mn == "beq"@ {
        Some(0)
    } else if mn == "bne"@ {
        Some(1)
    } else if mn == "bge"@ {
        Some(2)
    } else if mn == "blt"@ {
        Some(3)
    } else if mn == "bge.u"@ {
        Some(4)
    } else if mn == "blt.u"@ {
        Some(5)
    } else {
        None
    }
}

/// Jumps, calls and branches, with a label or an address as target.
pub open spec fn group_jumps(mn: Seq<char>, rest: Seq<char>) -> Option<Result<ItemView, SyntaxError>> {
    let p = operands(rest);
    if mn == "j"@ {
        Some(Ok(ItemView::Jump(Jump::J, target(rest))))
    } else if mn == "call"@ {
        Some(Ok(ItemView::Jump(Jump::Call, target(rest))))
    } else if rr_jump_kind(mn) is Some {
        let k = rr_jump_kind(mn)->0;
        Some(
            match shape_rr_t(p, if k >= 6 { 'a' } else { 'd' }) {
                Ok((a, b, t)) => Ok(ItemView::Jump(rr_jump(k, a, b), t)),
                Err(e) => Err(e),
            },
        )
    } else if mn == "jz.a"@ || mn == "jnz.a"@ {
        Some(
            match shape_a_t(p) {
                Ok((ra, t)) => Ok(
                    ItemView::Jump(if mn == "jz.a"@ { Jump::JzAR { ra } } else { Jump::JnzAR { ra } }, t),
                ),
                Err(e) => Err(e),
            },
        )
    } else if flag_kind(mn) is Some {
        Some(Ok(ItemView::Jump(Jump::BFlag { kind: flag_kind(mn)->0 }, target(trim(rest)))))
    } else {
        None
    }
}

fn exec_group_jumps(line: &str, mn: &Vec<char>, r: &[char], org: &[usize], ops: &Vec<(usize, usize)>) -> (x: Option<
    Result<Item, SyntaxError>,
>)
    requires
        ops_ok(r@, ops@),
        origins_ok(line@, r@, org@),
    ensures
        same_opt(x, group_jumps(mn@, r@)),
{
    let all = r.len();
    assert(r@.subrange(0, all as int) =~= r@);
    if is(mn, "j") {
        return Some(Ok(Item::Jump(Jump::J, target_in(line, r, org, 0, all))));
    }
    if is(mn, "call") {
        return Some(Ok(Item::Jump(Jump::Call, target_in(line, r, org, 0, all))));
    }
    let jk: Option<u8> = if is(mn, "jeq") {
        Some(0)
    } else if is(mn, "jne") {
        Some(1)
    } else if is(mn, "jge.u") {
        Some(2)
    } else if is(mn, "jlt.u") {
        Some(3)
    } else if is(mn, "jge") {
        Some(4)
    } else if is(mn, "jlt") {
        Some(5)
    } else if is(mn, "jeq.a") {
        Some(6)
    } else if is(mn, "jne.a") {
        Some(7)
    } else {
        None
    };
    assert(jk == rr_jump_kind(mn@));
    if let Some(k) = jk {
        let bank = if k >= 6 { 'a' } else { 'd' };
        return Some(match sh_rr_t(line, r, org, ops, bank) {
            Ok((a, b, t)) => {
                let j = if k == 0 {
                    Jump::JeqRR { a, b }
                } else if k == 1 {
                    Jump::JneRR { a, b }
                } else if k == 2 {
                    Jump::JgeURR { a, b }
                } else if k == 3 {
                    Jump::JltURR { a, b }
                } else if k == 4 {
                    Jump::JgeRR { a, b, unsigned: false }
                } else if k == 5 {
                    Jump::JltRR { a, b, unsigned: false }
                } else if k == 6 {
                    Jump::JeqARR { ra: a, rb: b }
                } else {
                    Jump::JneARR { ra: a, rb: b }
                };
                Ok(Item::Jump(j, t))
            },
            Err(e) => Err(e),
        });
    }
    if is(mn, "jz.a") || is(mn, "jnz.a") {
        let z = is(mn, "jz.a");
        return Some(match sh_a_t(line, r, org, ops) {
            Ok((ra, t)) => Ok(Item::Jump(if z { Jump::JzAR { ra } } else { Jump::JnzAR { ra } }, t)),
            Err(e) => Err(e),
        });
    }
    let fk: Option<u8> = if is(mn, "beq") {
        Some(0)
    } else if is(mn, "bne") {
        Some(1)
    } else if is(mn, "bge") {
        Some(2)
    } else if is(mn, "blt") {
        Some(3)
    } else if is(mn, "bge.u") {
        Some(4)
    } else if is(mn, "blt.u") {
        Some(5)
    } else {
        None
    };
    assert(fk == flag_kind(mn@));
    match fk {
        Some(kind) => {
            let (a, b) = trim_range(r, 0, all);
            Some(Ok(Item::Jump(Jump::BFlag { kind }, target_in(line, r, org, a, b))))
        },
        None => None,
    }
}

/// The item an instruction line stands for: its lowercased mnemonic `mn`
/// and the rest of its words `rest`.
pub open spec fn instruction(mn: Seq<char>, rest: Seq<char>) -> Result<ItemView, SyntaxError> {
    match group_moves(mn, rest) {
        Some(r) => r,
        None => match group_memory(mn, rest) {
            Some(r) => r,
            None => match group_alu(mn, rest) {
                Some(r) => r,
                None => match group_jumps(mn, rest) {
                    Some(r) => r,
                    None => Err(SyntaxError::UnknownMnemonic),
                },
            },
        },
    }
}

/// What a line of assembly holds: nothing (a blank line, a line whose first
/// non-blank character is `#`, or what follows a `;`), a label (`name:`), a
/// `.word` or `.byte` directive, or an instruction: a mnemonic, in any
/// case, then comma-separated operands.
pub open spec fn line_item(line: Seq<char>) -> Result<Option<ItemView>, SyntaxError> {
    let ls = trim_start(line);
    if ls.len() > 0 && ls[0] == '#' {
        Ok(None)
    } else {
        let s = trim(line.subrange(0, index_of(line, ';')));
        if s.len() == 0 {
            Ok(None)
        } else if s.last() == ':' {
            Ok(Some(ItemView::Label(trim(s.drop_last()))))
        } else if starts_with(s, ".word"@) {
            match num(trim(s.subrange(5, s.len() as int))) {
                Some(v) => Ok(Some(ItemView::Dir(Dir::Word(v)))),
                None => Err(SyntaxError::BadDirective),
            }
        } else if starts_with(s, ".byte"@) {
            match num(trim(s.subrange(5, s.len() as int))) {
                Some(v) => Ok(Some(ItemView::Dir(Dir::Byte((v & 0xFF) as u8)))),
                None => Err(SyntaxError::BadDirective),
            }
        } else {
            let e = ws_from(s, 0);
            match instruction(ascii_lower(s.subrange(0, e)), join_words(s.subrange(e, s.len() as int))) {
                Ok(it) => Ok(Some(it)),
                Err(x) => Err(x),
            }
        }
    }
}

/// The index of the first non-whitespace character of `s[lo..hi]`, or `hi`.
fn skip_ws(s: &[char], lo: usize, hi: usize) -> (r: usize)
    requires
        lo <= hi <= s@.len(),
    ensures
        lo <= r <= hi,
        s@.subrange(r as int, hi as int) == trim_start(s@.subrange(lo as int, hi as int)),
{
    let mut i = lo;
    while i < hi && is_ws_char(s[i])
        invariant
            lo <= i <= hi <= s@.len(),
            trim_start(s@.subrange(lo as int, hi as int)) == trim_start(s@.subrange(i as int, hi as int)),
        decreases hi - i,
    {
        assert(s@.subrange(i as int, hi as int).drop_first() =~= s@.subrange(i + 1, hi as int));
        i = i + 1;
    }
    assert(i < hi ==> s@.subrange(i as int, hi as int)[0] == s@[i as int]);
    i
}

/// `s[lo..hi]` in ASCII lowercase.
fn lower_range(s: &[char], lo: usize, hi: usize) -> (r: Vec<char>)
    requires
        lo <= hi <= s@.len(),
    ensures
        r@ == ascii_lower(s@.subrange(lo as int, hi as int)),
{
    let mut out: Vec<char> = Vec::new();
    let mut i = lo;
    while i < hi
        invariant
            lo <= i <= hi <= s@.len(),
            out@ == ascii_lower(s@.subrange(lo as int, i as int)),
        decreases hi - i,
    {
        let c = s[i];
        let l = if 'A' <= c && c <= 'Z' {
            ((c as u8) + 32) as char
        } else {
            c
        };
        assert(l == lower_char(c));
        out.push(l);
        assert(out@ =~= ascii_lower(s@.subrange(lo as int, i + 1)));
        i = i + 1;
    }
    out
}

/// Reads one line of assembly (see `line_item`).
pub fn parse_line(line: &str) -> (r: Result<Option<Item>, SyntaxError>)
    ensures
        match (r, line_item(line@)) {
            (Ok(None), Ok(None)) => true,
            (Ok(Some(it)), Ok(Some(v))) => it@ == v,
            (Err(e), Err(f)) => e == f,
            _ => false,
        },
{
    let cs = chars_of(line);
    let n = cs.len();
    let s = cs.as_slice();
    assert(s@.subrange(0, n as int) =~= line@);
    let a0 = skip_ws(s, 0, n);
    if a0 < n && s[a0] == '#' {
        assert(trim_start(line@)[0] == s@[a0 as int]);
        return Ok(None);
    }
    assert(a0 < n ==> trim_start(line@)[0] == s@[a0 as int]);
    let semi = find_in(s, 0, n, ';');
    let (lo, hi) = trim_range(s, 0, semi);
    let ghost body = s@.subrange(lo as int, hi as int);
    assert(body == trim(line@.subrange(0, index_of(line@, ';'))));
    if lo == hi {
        return Ok(None);
    }
    assert(body.last() == s@[hi - 1]);
    if s[hi - 1] == ':' {
        let (a, b) = trim_range(s, lo, hi - 1);
        assert(body.drop_last() =~= s@.subrange(lo as int, hi - 1));
        let name = line.substring_char(a, b);
        return Ok(Some(Item::Label(String::from_str(name))));
    }
    proof {
        reveal_strlit(".word");
        reveal_strlit(".byte");
    }
    if range_starts_with(s, lo, hi, ".word") {
        assert(body.subrange(0, 5) =~= s@.subrange(lo as int, lo + 5));
        assert(body.subrange(5, body.len() as int) =~= s@.subrange(lo + 5, hi as int));
        let (a, b) = trim_range(s, lo + 5, hi);
        return match num_in(s, a, b) {
            Some(v) => Ok(Some(Item::Dir(Dir::Word(v)))),
            None => Err(SyntaxError::BadDirective),
        };
    }
    assert(body.len() >= 5 ==> body.subrange(0, 5) =~= s@.subrange(lo as int, lo + 5));
    if range_starts_with(s, lo, hi, ".byte") {
        assert(body.subrange(5, body.len() as int) =~= s@.subrange(lo + 5, hi as int));
        let (a, b) = trim_range(s, lo + 5, hi);
        return match num_in(s, a, b) {
            Some(v) => Ok(Some(Item::Dir(Dir::Byte((v & 0xFF) as u8)))),
            None => Err(SyntaxError::BadDirective),
        };
    }
    match parse_instruction(line, s, lo, hi) {
        Ok(it) => Ok(Some(it)),
        Err(x) => Err(x),
    }
}

/// The instruction on the non-blank characters `s[lo..hi]` of `line`: the
/// first word is the mnemonic, the others its operands.
fn parse_instruction(line: &str, s: &[char], lo: usize, hi: usize) -> (r: Result<Item, SyntaxError>)
    requires
        lo <= hi <= s@.len(),
        s@ == line@,
    ensures
        ({
            let body = s@.subrange(lo as int, hi as int);
            let e = ws_from(body, 0);
            same_res(r, instruction(ascii_lower(body.subrange(0, e)), join_words(body.subrange(e, body.len() as int))))
        }),
{
    let ghost body = s@.subrange(lo as int, hi as int);
    let e = ws_in(s, lo, hi);
    assert(body.subrange(0, e - lo) =~= s@.subrange(lo as int, e as int));
    assert(body.subrange(e - lo, body.len() as int) =~= s@.subrange(e as int, hi as int));
    let mn = lower_range(s, lo, e);
    let (rest, org) = join_in(s, e, hi);
    let rs = rest.as_slice();
    let ops = split_ranges(rs, 0, rs.len(), ',');
    assert(rs@.subrange(0, rs@.len() as int) =~= rs@);
    assert(ops_ok(rs@, ops@));
    match exec_group_moves(line, &mn, rs, org.as_slice(), &ops) {
        Some(x) => x,
        None => match exec_group_memory(&mn, rs, &ops) {
            Some(x) => x,
            None => match exec_group_alu(&mn, rs, &ops) {
                Some(x) => x,
                None => match exec_group_jumps(line, &mn, rs, org.as_slice(), &ops) {
                    Some(x) => x,
                    None => Err(SyntaxError::UnknownMnemonic),
                },
            },
        },
    }
}

/// `[pN]`: a P register (an address-register pair), kept to four bits.
pub open spec fn preg(s: Seq<char>) -> Result<u32, SyntaxError> {
    let st = trim(s);
    if !bracketed(st) {
        Err(SyntaxError::BadRegister)
    } else {
        let inner = st.subrange(1, st.len() - 1);
        if !(inner.len() >= 1 && inner[0] == 'p') {
            Err(SyntaxError::BadRegister)
        } else {
            match radix_value(inner.drop_first(), false) {
                Ok(n) => Ok(n & 0xF),
                Err(_) => Err(SyntaxError::BadRegister),
            }
        }
    }
}

/// A data register operand `dN`.
pub fn parse_reg_d(s: &str) -> (r: Option<u32>)
    ensures
        r == reg(s@, 'd'),
{
    let cs = chars_of(s);
    assert(cs@.subrange(0, cs@.len() as int) =~= s@);
    reg_in(cs.as_slice(), 0, cs.len(), 'd')
}

/// An address register operand `aN`.
pub fn parse_reg_a(s: &str) -> (r: Option<u32>)
    ensures
        r == reg(s@, 'a'),
{
    let cs = chars_of(s);
    assert(cs@.subrange(0, cs@.len() as int) =~= s@);
    reg_in(cs.as_slice(), 0, cs.len(), 'a')
}

/// A P register operand `[pN]` (see `preg`).
pub fn parse_reg_p(s: &str) -> (r: Result<u32, SyntaxError>)
    ensures
        r == preg(s@),
{
    let cs = chars_of(s);
    let v = cs.as_slice();
    assert(v@.subrange(0, v@.len() as int) =~= s@);
    let (a, b) = trim_range(v, 0, v.len());
    if !bracketed_in(v, a, b) {
        return Err(SyntaxError::BadRegister);
    }
    let ghost st = v@.subrange(a as int, b as int);
    let ghost inner = st.subrange(1, st.len() - 1);
    assert(inner =~= v@.subrange(a + 1, b - 1));
    if !(b - 1 > a + 1 && v[a + 1] == 'p') {
        assert(inner.len() >= 1 ==> inner[0] == v@[a + 1]);
        return Err(SyntaxError::BadRegister);
    }
    assert(inner[0] == v@[a + 1]);
    assert(inner.drop_first() =~= v@.subrange(a + 2, b - 1));
    match radix_in(v, a + 2, b - 1, false) {
        Ok(n) => Ok(n & 0xF),
        Err(_) => Err(SyntaxError::BadRegister),
    }
}

/// A memory operand `[aN]` or `[aN+off]` (see `mem_ab_off`).
pub fn parse_mem_ab_off(s: &str) -> (r: Result<(u32, u32), SyntaxError>)
    ensures
        r == mem_ab_off(s@),
{
    let cs = chars_of(s);
    assert(cs@.subrange(0, cs@.len() as int) =~= s@);
    mem_ab_off_in(cs.as_slice(), 0, cs.len())
}

/// An absolute memory operand `[addr]` (see `mem_abs`).
pub fn parse_mem_abs(s: &str) -> (r: Result<u32, SyntaxError>)
    ensures
        r == mem_abs(s@),
{
    let cs = chars_of(s);
    assert(cs@.subrange(0, cs@.len() as int) =~= s@);
    mem_abs_in(cs.as_slice(), 0, cs.len())
}

} // verus!
