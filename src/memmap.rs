use vstd::prelude::*;
use vstd::string::StringSliceAdditionalSpecFns;

verus! {

/// First line of the memory-map file.
pub const MEMMAP_HEADER: &'static str = "Index, Type, Type(name), PhysicalStart, NumberOfPages, Attribute\n";

/// Bits of a descriptor's attribute that the memory-map file shows.
pub const ATTRIBUTE_MASK: u64 = 0xfffff;

/// ASCII digit for `d` (0..16), lower case past 9.
pub open spec fn digit_char(d: int) -> u8 {
    if d < 10 {
        (48 + d) as u8
    } else {
        (87 + d) as u8
    }
}

/// The digits of `n` in base `base`, most significant first, without leading zeros.
pub open spec fn digits_spec(n: nat, base: nat) -> Seq<u8>
    decreases n,
    via digits_decreases
{
    if base < 2 || n < base {
        seq![digit_char((n % 16) as int)]
    } else {
        digits_spec(n / base, base) + seq![digit_char((n % base) as int)]
    }
}

#[via_fn]
proof fn digits_decreases(n: nat, base: nat) {
    if !(base < 2 || n < base) {
        assert(n / base < n) by (nonlinear_arith)
            requires base >= 2, n >= base;
    }
}

/// `s` with ASCII zeros in front to make it at least `width` long.
pub open spec fn zero_padded(s: Seq<u8>, width: nat) -> Seq<u8> {
    if s.len() >= width {
        s
    } else {
        Seq::new((width - s.len()) as nat, |i: int| 48u8) + s
    }
}

/// The bytes ", ".
pub open spec fn sep() -> Seq<u8> {
    seq![44u8, 32u8]
}

/// One line of the memory-map file: index in decimal; type in hex; type
/// name; physical start in hex, zero-padded to 8 digits; page count in hex;
/// attribute's low 20 bits in hex; newline.
pub open spec fn memmap_line_spec(
    index: u64,
    ty: u32,
    ty_name: Seq<u8>,
    phys_start: u64,
    page_count: u64,
    attribute: u64,
) -> Seq<u8> {
    digits_spec(index as nat, 10) + sep() + digits_spec(ty as nat, 16) + sep() + ty_name + sep()
        + zero_padded(digits_spec(phys_start as nat, 16), 8) + sep() + digits_spec(
        page_count as nat,
        16,
    ) + sep() + digits_spec((attribute & ATTRIBUTE_MASK) as nat, 16) + seq![10u8]
}

pub(crate) fn push_digits(out: &mut Vec<u8>, n: u64, base: u64)
    requires
        base == 10 || base == 16,
    ensures
        final(out)@ == old(out)@ + digits_spec(n as nat, base as nat),
    decreases n,
{
    if n >= base {
        push_digits(out, n / base, base);
    }
    let d = n % base;
    let c: u8 = if d < 10 { 48 + d as u8 } else { 87 + d as u8 };
    out.push(c);
    proof {
        if n < base {
            assert(n % 16 == n % base);
        }
    }
    assert(final(out)@ =~= old(out)@ + digits_spec(n as nat, base as nat));
}

fn digit_count(n: u64, base: u64) -> (r: u64)
    requires
        base == 10 || base == 16,
    ensures
        r == digits_spec(n as nat, base as nat).len(),
    decreases n,
{
    if n >= base {
        let k = digit_count(n / base, base);
        proof {
            lemma_digit_count_bound((n / base) as nat, base as nat);
            assert(n / base + 1 <= n) by (nonlinear_arith)
                requires base >= 2, n >= base;
        }
        k + 1
    } else {
        1
    }
}

proof fn lemma_digit_count_bound(n: nat, base: nat)
    requires
        base == 10 || base == 16,
        n <= u64::MAX,
    ensures
        digits_spec(n, base).len() <= n + 1,
    decreases n,
{
    if n >= base {
        assert(n / base + 1 <= n) by (nonlinear_arith)
            requires base >= 2, n >= base;
        lemma_digit_count_bound(n / base, base);
    }
}

/// Appends `n` in lower-case hex, zero-padded to `width` digits.
pub(crate) fn push_hex_padded(out: &mut Vec<u8>, n: u64, width: u64)
    ensures
        final(out)@ == old(out)@ + zero_padded(digits_spec(n as nat, 16), width as nat),
{
    let ghost before_pad = out@;
    let count = digit_count(n, 16);
    let mut k: u64 = count;
    while k < width
        invariant
            count <= k <= width || (count > width && k == count),
            count == digits_spec(n as nat, 16).len(),
            out@ == before_pad + Seq::new((k - count) as nat, |i: int| 48u8),
        decreases width - k,
    {
        out.push(48);
        k = k + 1;
        assert(out@ =~= before_pad + Seq::new((k - count) as nat, |i: int| 48u8));
    }
    push_digits(out, n, 16);
    proof {
        let d = digits_spec(n as nat, 16);
        if d.len() >= width {
            assert(Seq::new((k - count) as nat, |i: int| 48u8) =~= Seq::<u8>::empty());
        } else {
            assert(Seq::new((k - count) as nat, |i: int| 48u8) =~= Seq::new((width - d.len()) as nat, |i: int| 48u8));
        }
        assert(final(out)@ =~= before_pad + zero_padded(d, width as nat));
    }
}

fn push_str_bytes(out: &mut Vec<u8>, s: &str)
    ensures
        final(out)@ == old(out)@ + s.spec_bytes(),
{
    let b = s.as_bytes();
    let mut i: usize = 0;
    while i < b.len()
        invariant
            i <= b@.len(),
            b@ == s.spec_bytes(),
            out@ == old(out)@ + b@.subrange(0, i as int),
        decreases b@.len() - i,
    {
        out.push(b[i]);
        i = i + 1;
        assert(out@ =~= old(out)@ + b@.subrange(0, i as int));
    }
    assert(b@.subrange(0, i as int) =~= b@);
}

fn push_sep(out: &mut Vec<u8>)
    ensures
        final(out)@ == old(out)@ + sep(),
{
    out.push(44);
    out.push(32);
    assert(final(out)@ =~= old(out)@ + sep());
}

/// Formats one memory descriptor as a line of the memory-map file.
pub fn memmap_line(
    index: u64,
    ty: u32,
    ty_name: &str,
    phys_start: u64,
    page_count: u64,
    attribute: u64,
) -> (r: Vec<u8>)
    ensures
        r@ == memmap_line_spec(index, ty, ty_name.spec_bytes(), phys_start, page_count, attribute),
{
    let mut out: Vec<u8> = Vec::new();
    push_digits(&mut out, index, 10);
    push_sep(&mut out);
    push_digits(&mut out, ty as u64, 16);
    push_sep(&mut out);
    push_str_bytes(&mut out, ty_name);
    push_sep(&mut out);
    push_hex_padded(&mut out, phys_start, 8);
    push_sep(&mut out);
    push_digits(&mut out, page_count, 16);
    push_sep(&mut out);
    push_digits(&mut out, attribute & ATTRIBUTE_MASK, 16);
    out.push(10);
    assert(out@ =~= memmap_line_spec(index, ty, ty_name.spec_bytes(), phys_start, page_count, attribute));
    out
}

} // verus!
