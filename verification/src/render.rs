//! Rendering of the debug snapshot: text lines with hexadecimal and decimal
//! word values, specified character by character.

use vstd::prelude::*;

verus! {

/// The character of one base-16 digit.
pub open spec fn spec_digit_char(d: int) -> char {
    if d == 0 {
        '0'
    } else if d == 1 {
        '1'
    } else if d == 2 {
        '2'
    } else if d == 3 {
        '3'
    } else if d == 4 {
        '4'
    } else if d == 5 {
        '5'
    } else if d == 6 {
        '6'
    } else if d == 7 {
        '7'
    } else if d == 8 {
        '8'
    } else if d == 9 {
        '9'
    } else if d == 10 {
        'a'
    } else if d == 11 {
        'b'
    } else if d == 12 {
        'c'
    } else if d == 13 {
        'd'
    } else if d == 14 {
        'e'
    } else {
        'f'
    }
}

/// The eight hexadecimal digits of a word, most significant first.
pub open spec fn spec_hex32(w: u32) -> Seq<char> {
    Seq::new(8, |i: int| spec_digit_char(((w >> ((28 - 4 * i) as u32)) & 0xf) as int))
}

/// The decimal digits of a number, without leading zeroes (a single zero
/// for 0).
pub open spec fn spec_dec(n: nat) -> Seq<char>
    decreases n,
{
    if n < 10 {
        seq![spec_digit_char(n as int)]
    } else {
        spec_dec((n / 10) as nat) + seq![spec_digit_char((n % 10) as int)]
    }
}

/// The characters of a digit list read backwards (the list holds the least
/// significant digit first).
pub open spec fn digit_chars_rev(ds: Seq<u32>) -> Seq<char>
    decreases ds.len(),
{
    if ds.len() == 0 {
        Seq::empty()
    } else {
        seq![spec_digit_char(ds.last() as int)] + digit_chars_rev(ds.drop_last())
    }
}

/// Reading a digit list backwards maps each position to the mirrored digit.
proof fn lemma_digit_chars_rev_index(ds: Seq<u32>)
    ensures
        digit_chars_rev(ds).len() == ds.len(),
        forall|t: int|
            0 <= t < ds.len() ==> digit_chars_rev(ds)[t] == spec_digit_char(
                ds[ds.len() - 1 - t] as int,
            ),
    decreases ds.len(),
{
    if ds.len() > 0 {
        lemma_digit_chars_rev_index(ds.drop_last());
    }
}

/// One line of the dump showing a labeled word in hex and decimal, like
/// `PC: 0x00400000 (4194304)`.
pub open spec fn spec_word_line(label: Seq<char>, w: u32) -> Seq<char> {
    label + spec_hex32(w) + " ("@ + spec_dec(w as nat) + ")\n"@
}

/// One register line of the dump, like `r8: 0x00000003`.
pub open spec fn spec_reg_line(i: int, w: u32) -> Seq<char> {
    "r"@ + spec_dec(i as nat) + ": 0x"@ + spec_hex32(w) + "\n"@
}

/// The register lines from index `i` up.
pub open spec fn spec_reg_lines(regs: Seq<u32>, i: int) -> Seq<char>
    decreases 32 - i,
{
    if 0 <= i < 32 {
        spec_reg_line(i, regs[i]) + spec_reg_lines(regs, i + 1)
    } else {
        Seq::empty()
    }
}

/// The whole debug dump: PC, HI and LO with decimal echoes, then the 32
/// register values in hex.
pub open spec fn spec_dump(pc: u32, hi: u32, lo: u32, regs: Seq<u32>) -> Seq<char> {
    spec_word_line("PC: 0x"@, pc) + spec_word_line("HI: 0x"@, hi) + spec_word_line("LO: 0x"@, lo)
        + spec_reg_lines(regs, 0)
}

/// The one-character string of a base-16 digit.
fn digit_str(d: u32) -> (r: &'static str)
    requires
        d < 16,
    ensures
        r@ == seq![spec_digit_char(d as int)],
{
    proof {
        reveal_strlit("0");
        reveal_strlit("1");
        reveal_strlit("2");
        reveal_strlit("3");
        reveal_strlit("4");
        reveal_strlit("5");
        reveal_strlit("6");
        reveal_strlit("7");
        reveal_strlit("8");
        reveal_strlit("9");
        reveal_strlit("a");
        reveal_strlit("b");
        reveal_strlit("c");
        reveal_strlit("d");
        reveal_strlit("e");
        reveal_strlit("f");
    }
    let r = match d {
        0 => "0",
        1 => "1",
        2 => "2",
        3 => "3",
        4 => "4",
        5 => "5",
        6 => "6",
        7 => "7",
        8 => "8",
        9 => "9",
        10 => "a",
        11 => "b",
        12 => "c",
        13 => "d",
        14 => "e",
        _ => "f",
    };
    proof {
        assert(r@ =~= seq![spec_digit_char(d as int)]);
    }
    r
}

/// Append the eight hex digits of `w` to `out`.
pub fn push_hex32(out: &mut String, w: u32)
    ensures
        final(out)@ == old(out)@ + spec_hex32(w),
{
    let mut i: usize = 0;
    while i < 8
        invariant
            i <= 8,
            out@.len() == old(out)@.len() + i,
            forall|j: int| 0 <= j < old(out)@.len() ==> out@[j] == old(out)@[j],
            forall|j: int| 0 <= j < i ==> out@[old(out)@.len() + j] == spec_hex32(w)[j],
        decreases 8 - i,
    {
        let shift: u32 = 28 - 4 * (i as u32);
        let d = (w >> shift) & 0xf;
        proof {
            assert(d < 16) by (bit_vector)
                requires
                    d == (w >> shift) & 0xf,
            ;
        }
        out.append(digit_str(d));
        i += 1;
    }
    proof {
        assert(out@ =~= old(out)@ + spec_hex32(w));
    }
}

/// Append the decimal digits of `n` to `out`.
pub fn push_dec32(out: &mut String, n: u32)
    ensures
        final(out)@ == old(out)@ + spec_dec(n as nat),
{
    let mut digits: Vec<u32> = Vec::new();
    let mut rest = n;
    while rest >= 10
        invariant
            forall|t: int| 0 <= t < digits@.len() ==> digits@[t] < 10,
            spec_dec(n as nat) == spec_dec(rest as nat) + digit_chars_rev(digits@),
        decreases rest,
    {
        let ghost before = digits@;
        let d = rest % 10;
        digits.push(d);
        rest = rest / 10;
        proof {
            assert(digits@.drop_last() =~= before);
            assert(spec_dec(n as nat) =~= spec_dec(rest as nat) + digit_chars_rev(digits@));
        }
    }
    let ghost before = digits@;
    digits.push(rest);
    proof {
        assert(digits@.drop_last() =~= before);
        assert(spec_dec(n as nat) =~= digit_chars_rev(digits@));
        lemma_digit_chars_rev_index(digits@);
    }
    let total = digits.len();
    let mut k = total;
    while k > 0
        invariant
            k <= total,
            total == digits@.len(),
            forall|t: int| 0 <= t < digits@.len() ==> digits@[t] < 10,
            out@.len() == old(out)@.len() + (total - k),
            forall|j: int| 0 <= j < old(out)@.len() ==> out@[j] == old(out)@[j],
            forall|t: int|
                0 <= t < total - k ==> #[trigger] out@[old(out)@.len() + t] == spec_digit_char(
                    digits@[total - 1 - t] as int,
                ),
        decreases k,
    {
        k -= 1;
        out.append(digit_str(digits[k]));
    }
    proof {
        lemma_digit_chars_rev_index(digits@);
        assert forall|idx: int| 0 <= idx < out@.len() implies out@[idx] == (old(out)@
            + digit_chars_rev(digits@))[idx] by {
            if idx >= old(out)@.len() {
                let t = idx - old(out)@.len();
                assert(out@[old(out)@.len() + t] == spec_digit_char(
                    digits@[digits@.len() - 1 - t] as int,
                ));
            }
        }
        assert(out@ =~= old(out)@ + digit_chars_rev(digits@));
    }
}

/// Append one labeled word line, like `PC: 0x00400000 (4194304)`.
pub fn push_word_line(out: &mut String, label: &str, w: u32)
    ensures
        final(out)@ == old(out)@ + spec_word_line(label@, w),
{
    out.append(label);
    push_hex32(out, w);
    out.append(" (");
    push_dec32(out, w);
    out.append(")\n");
    proof {
        assert(out@ =~= old(out)@ + spec_word_line(label@, w));
    }
}

/// Render the whole debug dump of a machine's registers.
pub fn render_dump(pc: u32, hi: u32, lo: u32, values: &Vec<u32>) -> (r: String)
    requires
        values@.len() == 32,
    ensures
        r@ == spec_dump(pc, hi, lo, values@),
{
    let mut out = String::new();
    push_word_line(&mut out, "PC: 0x", pc);
    push_word_line(&mut out, "HI: 0x", hi);
    push_word_line(&mut out, "LO: 0x", lo);
    let ghost header = out@;
    let mut i: usize = 0;
    while i < 32
        invariant
            i <= 32,
            values@.len() == 32,
            header + spec_reg_lines(values@, 0) == spec_dump(pc, hi, lo, values@),
            out@ + spec_reg_lines(values@, i as int) == header + spec_reg_lines(values@, 0),
        decreases 32 - i,
    {
        let ghost line_start = out@;
        out.append("r");
        proof {
            assert(i < 0x1_0000_0000);
        }
        push_dec32(&mut out, i as u32);
        out.append(": 0x");
        push_hex32(&mut out, values[i]);
        out.append("\n");
        proof {
            assert((i as u32) as nat == i as nat);
            assert(line_start + spec_reg_line(i as int, values@[i as int]) =~= out@);
            assert(out@ + spec_reg_lines(values@, i + 1) =~= line_start + spec_reg_lines(
                values@,
                i as int,
            ));
        }
        i += 1;
    }
    proof {
        assert(spec_reg_lines(values@, 32) =~= Seq::<char>::empty());
        assert(out@ =~= out@ + spec_reg_lines(values@, 32));
        assert(out@ =~= spec_dump(pc, hi, lo, values@));
    }
    out
}

} // verus!
