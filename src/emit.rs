//! The text of the target instructions, and writers that append it.
//! A compound variable `v` of `n` qubits is the family `v_0 .. v_{n-1}`.
use vstd::prelude::*;

verus! {

pub open spec fn digit_char(d: int) -> char {
    if d == 0 {
        '0'
    } else if d == 1 {
        '1'
    } else if d == 2 {
        '2'
    } else if d == 3 {
        '3'
    } else if d == 4 {
        '4'
    } else if d == 5 {
        '5'
    } else if d == 6 {
        '6'
    } else if d == 7 {
        '7'
    } else if d == 8 {
        '8'
    } else {
        '9'
    }
}

/// The decimal digits of `n`, most significant first.
pub open spec fn digits_of(n: nat) -> Seq<char>
    decreases n,
{
    if n < 10 {
        seq![digit_char(n as int)]
    } else {
        digits_of(n / 10).push(digit_char((n % 10) as int))
    }
}

/// `n` in decimal, with `-` before a negative number.
pub open spec fn decimal(n: int) -> Seq<char> {
    if n < 0 {
        seq!['-'] + digits_of((-n) as nat)
    } else {
        digits_of(n as nat)
    }
}

/// The name of qubit `j` of the family `name`.
pub open spec fn indexed(name: Seq<char>, j: int) -> Seq<char> {
    name + seq!['_'] + decimal(j)
}

/// Allocates the qubit `q`.
pub open spec fn qal_line(q: Seq<char>) -> Seq<char> {
    "QAL & 0 $ \""@ + q + "\"\n"@
}

/// Prepares `q` in the basis state `|1>` when `one`, else `|0>`.
pub open spec fn set_line(q: Seq<char>, one: bool) -> Seq<char> {
    "SET $"@ + q + if one {
        " 0 1\n"@
    } else {
        " 1 0\n"@
    }
}

/// Copies the qubit `src` into `dst`.
pub open spec fn cpy_line(dst: Seq<char>, src: Seq<char>) -> Seq<char> {
    "CPY $"@ + dst + " $"@ + src + "\n"@
}

/// Releases the qubit `q`.
pub open spec fn fre_line(q: Seq<char>) -> Seq<char> {
    "FRE & $ \""@ + q + "\"\n"@
}

/// `QAL` for `name_0 .. name_{n-1}`.
pub open spec fn qal_family(name: Seq<char>, n: int) -> Seq<char>
    decreases n,
{
    if n <= 0 {
        seq![]
    } else {
        qal_family(name, n - 1) + qal_line(indexed(name, n - 1))
    }
}

/// `v` shifted right by `j` bits.
pub open spec fn shr(v: int, j: int) -> int
    decreases j,
{
    if j <= 0 {
        v
    } else {
        shr(v, j - 1) / 2
    }
}

/// Bit `j` of `v`, least significant first.
pub open spec fn bit(v: int, j: int) -> bool {
    shr(v, j) % 2 == 1
}

/// `SET` for `name_0 .. name_{n-1}` from the bits of `v`, least significant
/// first.
pub open spec fn set_family(name: Seq<char>, v: int, n: int) -> Seq<char>
    decreases n,
{
    if n <= 0 {
        seq![]
    } else {
        set_family(name, v, n - 1) + set_line(indexed(name, n - 1), bit(v, n - 1))
    }
}

/// `CPY $dst_j $src_j` for `j` in `0..n`.
pub open spec fn cpy_family(dst: Seq<char>, src: Seq<char>, n: int) -> Seq<char>
    decreases n,
{
    if n <= 0 {
        seq![]
    } else {
        cpy_family(dst, src, n - 1) + cpy_line(indexed(dst, n - 1), indexed(src, n - 1))
    }
}

/// `FRE` for `name_0 .. name_{n-1}`.
pub open spec fn fre_family(name: Seq<char>, n: int) -> Seq<char>
    decreases n,
{
    if n <= 0 {
        seq![]
    } else {
        fre_family(name, n - 1) + fre_line(indexed(name, n - 1))
    }
}

/// The name of the family that carries a returned value.
pub open spec fn tmp() -> Seq<char> {
    "TMP"@
}

/// `ceil(log2(n))` for `n >= 1`.
pub open spec fn clog(n: int) -> nat
    decreases n,
{
    if n <= 1 {
        0
    } else {
        1 + clog((n + 1) / 2)
    }
}

/// The qubits given to the literal `n`: `max(1, ceil(log2(n)))`, and 2 for
/// `n == 2`.
pub open spec fn qubit_count(n: int) -> int {
    if n == 2 {
        2
    } else if n <= 1 {
        1
    } else {
        clog(n) as int
    }
}

fn digit(d: u64) -> (r: char)
    requires
        d < 10,
    ensures
        r == digit_char(d as int),
{
    if d == 0 {
        '0'
    } else if d == 1 {
        '1'
    } else if d == 2 {
        '2'
    } else if d == 3 {
        '3'
    } else if d == 4 {
        '4'
    } else if d == 5 {
        '5'
    } else if d == 6 {
        '6'
    } else if d == 7 {
        '7'
    } else if d == 8 {
        '8'
    } else {
        '9'
    }
}

pub fn push_digits(out: &mut String, n: u64)
    ensures
        final(out)@ == old(out)@ + digits_of(n as nat),
    decreases n,
{
    if n >= 10 {
        push_digits(out, n / 10);
    }
    out.push(digit(n % 10));
    proof {
        if n >= 10 {
            assert(final(out)@ =~= old(out)@ + digits_of(n as nat));
        }
    }
}

pub fn push_decimal(out: &mut String, n: i64)
    ensures
        final(out)@ == old(out)@ + decimal(n as int),
{
    if n < 0 {
        out.push('-');
        let m: u64 = ((-(n + 1)) as u64) + 1;
        push_digits(out, m);
        assert(final(out)@ =~= old(out)@ + decimal(n as int));
    } else {
        push_digits(out, n as u64);
    }
}

pub fn push_indexed(out: &mut String, name: &String, j: usize)
    ensures
        final(out)@ == old(out)@ + indexed(name@, j as int),
{
    out.push_str(name.as_str());
    out.push('_');
    push_digits(out, j as u64);
    assert(final(out)@ =~= old(out)@ + indexed(name@, j as int));
}

pub fn push_qal(out: &mut String, q: &String)
    ensures
        final(out)@ == old(out)@ + qal_line(q@),
{
    out.push_str("QAL & 0 $ \"");
    out.push_str(q.as_str());
    out.push_str("\"\n");
    assert(final(out)@ =~= old(out)@ + qal_line(q@));
}

pub fn push_qal_family(out: &mut String, name: &String, n: usize)
    ensures
        final(out)@ == old(out)@ + qal_family(name@, n as int),
{
    let mut j: usize = 0;
    while j < n
        invariant
            j <= n,
            out@ == old(out)@ + qal_family(name@, j as int),
        decreases n - j,
    {
        let ghost before = out@;
        out.push_str("QAL & 0 $ \"");
        push_indexed(out, name, j);
        out.push_str("\"\n");
        assert(out@ =~= before + qal_line(indexed(name@, j as int)));
        j += 1;
        assert(out@ =~= old(out)@ + qal_family(name@, j as int));
    }
}

pub fn push_set_line(out: &mut String, q: &String, one: bool)
    ensures
        final(out)@ == old(out)@ + set_line(q@, one),
{
    out.push_str("SET $");
    out.push_str(q.as_str());
    if one {
        out.push_str(" 0 1\n");
    } else {
        out.push_str(" 1 0\n");
    }
    assert(final(out)@ =~= old(out)@ + set_line(q@, one));
}

pub fn push_set_family(out: &mut String, name: &String, v: u32, n: usize)
    ensures
        final(out)@ == old(out)@ + set_family(name@, v as int, n as int),
{
    let mut j: usize = 0;
    let mut rest: u32 = v;
    while j < n
        invariant
            j <= n,
            rest as int == shr(v as int, j as int),
            out@ == old(out)@ + set_family(name@, v as int, j as int),
        decreases n - j,
    {
        let ghost before = out@;
        out.push_str("SET $");
        push_indexed(out, name, j);
        if rest % 2 == 1 {
            out.push_str(" 0 1\n");
        } else {
            out.push_str(" 1 0\n");
        }
        assert(out@ =~= before + set_line(indexed(name@, j as int), bit(v as int, j as int)));
        rest = rest / 2;
        j += 1;
        assert(out@ =~= old(out)@ + set_family(name@, v as int, j as int));
    }
}

pub fn push_cpy_family(out: &mut String, dst: &String, src: &String, n: usize)
    ensures
        final(out)@ == old(out)@ + cpy_family(dst@, src@, n as int),
{
    let mut j: usize = 0;
    while j < n
        invariant
            j <= n,
            out@ == old(out)@ + cpy_family(dst@, src@, j as int),
        decreases n - j,
    {
        let ghost before = out@;
        out.push_str("CPY $");
        push_indexed(out, dst, j);
        out.push_str(" $");
        push_indexed(out, src, j);
        out.push_str("\n");
        assert(out@ =~= before + cpy_line(indexed(dst@, j as int), indexed(src@, j as int)));
        j += 1;
        assert(out@ =~= old(out)@ + cpy_family(dst@, src@, j as int));
    }
}

pub fn push_fre_family(out: &mut String, name: &String, n: usize)
    ensures
        final(out)@ == old(out)@ + fre_family(name@, n as int),
{
    let mut j: usize = 0;
    while j < n
        invariant
            j <= n,
            out@ == old(out)@ + fre_family(name@, j as int),
        decreases n - j,
    {
        let ghost before = out@;
        out.push_str("FRE & $ \"");
        push_indexed(out, name, j);
        out.push_str("\"\n");
        assert(out@ =~= before + fre_line(indexed(name@, j as int)));
        j += 1;
        assert(out@ =~= old(out)@ + fre_family(name@, j as int));
    }
}

pub open spec fn two_to(b: nat) -> int
    decreases b,
{
    if b == 0 {
        1
    } else {
        2 * two_to((b - 1) as nat)
    }
}

proof fn lemma_clog_bound(n: int, b: nat)
    requires
        n <= two_to(b),
    ensures
        clog(n) <= b,
    decreases b,
{
    if n > 1 {
        assert(b > 0);
        lemma_clog_bound((n + 1) / 2, (b - 1) as nat);
    }
}

/// The qubits given to a non-negative literal: see `qubit_count`.
pub fn qubits_for(n: u32) -> (r: usize)
    ensures
        r as int == qubit_count(n as int),
        1 <= r <= 32,
{
    if n == 2 {
        return 2;
    }
    if n <= 1 {
        return 1;
    }
    proof {
        reveal_with_fuel(two_to, 33);
        assert(two_to(32) == 4294967296);
        lemma_clog_bound(n as int, 32);
    }
    let mut k: usize = 0;
    let mut m: u64 = n as u64;
    while m > 1
        invariant
            1 <= m <= n,
            k + clog(m as int) == clog(n as int),
            clog(n as int) <= 32,
        decreases m,
    {
        m = (m + 1) / 2;
        k += 1;
    }
    k
}

} // verus!
