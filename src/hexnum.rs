use vstd::prelude::*;

verus! {

/// The characters that `u8::is_ascii_hexdigit` accepts.
pub open spec fn is_hex_digit(c: char) -> bool {
    ('0' <= c && c <= '9') || ('a' <= c && c <= 'f') || ('A' <= c && c <= 'F')
}

/// Value of one hexadecimal digit.
pub open spec fn digit_value(c: char) -> nat {
    if '0' <= c && c <= '9' {
        (c as nat - '0' as nat) as nat
    } else if 'a' <= c && c <= 'f' {
        (c as nat - 'a' as nat + 10) as nat
    } else {
        (c as nat - 'A' as nat + 10) as nat
    }
}

pub open spec fn all_hex_digits(s: Seq<char>) -> bool {
    forall|i: int| 0 <= i < s.len() ==> is_hex_digit(#[trigger] s[i])
}

/// Value of a string of hexadecimal digits, most significant first.
pub open spec fn hex_value(s: Seq<char>) -> nat
    decreases s.len(),
{
    if s.len() == 0 {
        0
    } else {
        hex_value(s.drop_last()) * 16 + digit_value(s.last())
    }
}

/// The digits of a hexadecimal number, after an optional leading `+`.
pub open spec fn hex_body(s: Seq<char>) -> Seq<char> {
    if s.len() > 0 && s[0] == '+' {
        s.drop_first()
    } else {
        s
    }
}

/// Whether `s` is a base-16 number that fits in 64 bits: an optional `+`,
/// then at least one hexadecimal digit.
pub open spec fn is_hex_u64(s: Seq<char>) -> bool {
    let b = hex_body(s);
    b.len() > 0 && all_hex_digits(b) && hex_value(b) <= u64::MAX
}

/// Lowercase digit for a value below 16.
pub open spec fn hex_char(d: nat) -> char {
    if d < 10 {
        ('0' as nat + d) as char
    } else {
        ('a' as nat + d - 10) as char
    }
}

/// Shortest lowercase hexadecimal form of `v`.
pub open spec fn to_hex(v: nat) -> Seq<char>
    decreases v,
{
    if v < 16 {
        seq![hex_char(v)]
    } else {
        to_hex(v / 16).push(hex_char(v % 16))
    }
}

/// Lowercase hexadecimal form of `v`, left-padded with zeros to `width` digits.
pub open spec fn to_hex_padded(v: nat, width: nat) -> Seq<char> {
    let d = to_hex(v);
    if d.len() < width {
        Seq::new((width - d.len()) as nat, |i: int| '0') + d
    } else {
        d
    }
}

/// Catalog form of an address range: `lower-upper`, each at least eight digits.
pub open spec fn address_range_text(lower: nat, upper: nat) -> Seq<char> {
    to_hex_padded(lower, 8) + seq!['-'] + to_hex_padded(upper, 8)
}

pub proof fn lemma_hex_char(d: nat)
    requires
        d < 16,
    ensures
        is_hex_digit(hex_char(d)),
        digit_value(hex_char(d)) == d,
        hex_char(d) != '-',
        hex_char(d) != '+',
{
}

pub proof fn lemma_to_hex(v: nat)
    ensures
        to_hex(v).len() > 0,
        all_hex_digits(to_hex(v)),
        hex_value(to_hex(v)) == v,
        to_hex(v)[0] != '+',
    decreases v,
{
    if v < 16 {
        lemma_hex_char(v);
        assert(to_hex(v).drop_last() =~= Seq::<char>::empty());
        assert(hex_value(Seq::<char>::empty()) == 0);
        assert(hex_value(to_hex(v)) == hex_value(to_hex(v).drop_last()) * 16 + digit_value(to_hex(v).last()));
    } else {
        assert(v == (v / 16) * 16 + v % 16);
        lemma_to_hex(v / 16);
        lemma_hex_char(v % 16);
        assert(to_hex(v) == to_hex(v / 16).push(hex_char(v % 16)));
        assert(to_hex(v).drop_last() =~= to_hex(v / 16));
        assert(to_hex(v).last() == hex_char(v % 16));
        assert(hex_value(to_hex(v)) == hex_value(to_hex(v / 16)) * 16 + v % 16);
        assert(to_hex(v)[0] == to_hex(v / 16)[0]);
        assert forall|i: int| 0 <= i < to_hex(v).len() implies is_hex_digit(#[trigger] to_hex(v)[i]) by {
            if i < to_hex(v / 16).len() {
                assert(to_hex(v)[i] == to_hex(v / 16)[i]);
            }
        }
    }
}

proof fn lemma_hex_value_zeros(n: nat, d: Seq<char>)
    ensures
        hex_value(Seq::new(n, |i: int| '0') + d) == hex_value(d) + hex_value(Seq::new(n, |i: int| '0')) * pow16(d.len()),
        hex_value(Seq::new(n, |i: int| '0')) == 0,
    decreases d.len(), n,
{
    let z = Seq::new(n, |i: int| '0');
    if d.len() == 0 {
        assert(z + d =~= z);
        if n > 0 {
            lemma_hex_value_zeros((n - 1) as nat, d);
            assert(z.drop_last() =~= Seq::new((n - 1) as nat, |i: int| '0'));
        }
    } else {
        lemma_hex_value_zeros(n, d.drop_last());
        assert((z + d).drop_last() =~= z + d.drop_last());
    }
}

pub open spec fn pow16(n: nat) -> nat
    decreases n,
{
    if n == 0 {
        1
    } else {
        16 * pow16((n - 1) as nat)
    }
}

pub proof fn lemma_to_hex_padded(v: nat, width: nat)
    ensures
        to_hex_padded(v, width).len() > 0,
        all_hex_digits(to_hex_padded(v, width)),
        hex_value(to_hex_padded(v, width)) == v,
        to_hex_padded(v, width)[0] != '+',
        forall|i: int| 0 <= i < to_hex_padded(v, width).len() ==> to_hex_padded(v, width)[i] != '-',
{
    lemma_to_hex(v);
    let d = to_hex(v);
    if d.len() < width {
        lemma_hex_value_zeros((width - d.len()) as nat, d);
    }
    let p = to_hex_padded(v, width);
    assert forall|i: int| 0 <= i < p.len() implies p[i] != '-' by {
        assert(is_hex_digit(p[i]));
    }
}

/// Parses a base-16 unsigned 64-bit number in the form that
/// `u64::from_str_radix(s, 16)` accepts.
pub fn parse_hex_u64(s: &str) -> (r: Option<u64>)
    ensures
        r.is_some() <==> is_hex_u64(s@),
        r.is_some() ==> r.unwrap() as nat == hex_value(hex_body(s@)),
{
    let n = s.unicode_len();
    let mut i: usize = 0;
    if n > 0 && s.get_char(0) == '+' {
        i = 1;
    }
    let start = i;
    let ghost b = hex_body(s@);
    assert(b =~= s@.subrange(start as int, n as int));
    if i >= n {
        return None;
    }
    let mut acc: u64 = 0;
    while i < n
        invariant
            start <= i <= n,
            n == s@.len(),
            b == s@.subrange(start as int, n as int),
            b == hex_body(s@),
            all_hex_digits(s@.subrange(start as int, i as int)),
            acc as nat == hex_value(s@.subrange(start as int, i as int)),
        decreases n - i,
    {
        let c = s.get_char(i);
        let ghost pre = s@.subrange(start as int, i as int);
        let ghost next = s@.subrange(start as int, i + 1);
        assert(next.drop_last() =~= pre);
        let d: u64;
        if '0' <= c && c <= '9' {
            d = (c as u64) - ('0' as u64);
        } else if 'a' <= c && c <= 'f' {
            d = (c as u64) - ('a' as u64) + 10;
        } else if 'A' <= c && c <= 'F' {
            d = (c as u64) - ('A' as u64) + 10;
        } else {
            assert(!is_hex_digit(b[i - start]));
            return None;
        }
        if acc > (u64::MAX - d) / 16 {
            proof {
                assert(hex_value(next) > u64::MAX);
                if all_hex_digits(b) {
                    lemma_hex_prefix_grows(b, (i + 1 - start) as nat);
                    assert(b.subrange(0, (i + 1 - start) as int) =~= next);
                }
            }
            return None;
        }
        acc = acc * 16 + d;
        i = i + 1;
        proof {
            assert forall|j: int| 0 <= j < next.len() implies is_hex_digit(#[trigger] next[j]) by {
                if j < pre.len() {
                    assert(next[j] == pre[j]);
                }
            }
        }
    }
    assert(s@.subrange(start as int, n as int) =~= b);
    Some(acc)
}

/// A longer run of digits never has a smaller value than its prefix.
proof fn lemma_hex_prefix_grows(b: Seq<char>, k: nat)
    requires
        k <= b.len(),
        all_hex_digits(b),
    ensures
        hex_value(b) >= hex_value(b.subrange(0, k as int)),
    decreases b.len(),
{
    if b.len() > k {
        assert(all_hex_digits(b.drop_last())) by {
            assert forall|i: int| 0 <= i < b.drop_last().len() implies is_hex_digit(#[trigger] b.drop_last()[i]) by {
                assert(b.drop_last()[i] == b[i]);
            }
        }
        lemma_hex_prefix_grows(b.drop_last(), k);
        assert(b.drop_last().subrange(0, k as int) =~= b.subrange(0, k as int));
    } else {
        assert(b.subrange(0, k as int) =~= b);
    }
}

/// The one-character string of a lowercase hexadecimal digit.
fn digit_str(d: u64) -> (r: &'static str)
    requires
        d < 16,
    ensures
        r@ == seq![hex_char(d as nat)],
{
    if d == 0 {
        proof { reveal_strlit("0"); }
        "0"
    } else if d == 1 {
        proof { reveal_strlit("1"); }
        "1"
    } else if d == 2 {
        proof { reveal_strlit("2"); }
        "2"
    } else if d == 3 {
        proof { reveal_strlit("3"); }
        "3"
    } else if d == 4 {
        proof { reveal_strlit("4"); }
        "4"
    } else if d == 5 {
        proof { reveal_strlit("5"); }
        "5"
    } else if d == 6 {
        proof { reveal_strlit("6"); }
        "6"
    } else if d == 7 {
        proof { reveal_strlit("7"); }
        "7"
    } else if d == 8 {
        proof { reveal_strlit("8"); }
        "8"
    } else if d == 9 {
        proof { reveal_strlit("9"); }
        "9"
    } else if d == 10 {
        proof { reveal_strlit("a"); }
        "a"
    } else if d == 11 {
        proof { reveal_strlit("b"); }
        "b"
    } else if d == 12 {
        proof { reveal_strlit("c"); }
        "c"
    } else if d == 13 {
        proof { reveal_strlit("d"); }
        "d"
    } else if d == 14 {
        proof { reveal_strlit("e"); }
        "e"
    } else {
        proof { reveal_strlit("f"); }
        "f"
    }
}

/// Number of digits in the shortest hexadecimal form of `v`.
fn hex_len(v: u64) -> (r: usize)
    ensures
        r as nat == to_hex(v as nat).len(),
        r <= 16,
    decreases v,
{
    proof {
        reveal_with_fuel(pow16, 17);
        assert(pow16(16) == 0x1_0000_0000_0000_0000);
        lemma_to_hex_len_le(v as nat, 16);
    }
    if v < 16 {
        1
    } else {
        hex_len(v / 16) + 1
    }
}

proof fn lemma_to_hex_len_le(v: nat, k: nat)
    requires
        1 <= k,
        v < pow16(k),
    ensures
        to_hex(v).len() <= k,
    decreases v,
{
    if v >= 16 {
        assert(k >= 2) by {
            if k == 1 {
                reveal_with_fuel(pow16, 2);
            }
        }
        let p = pow16((k - 1) as nat);
        assert(v / 16 < p) by (nonlinear_arith)
            requires
                v < 16 * p,
        ;
        lemma_to_hex_len_le(v / 16, (k - 1) as nat);
    }
}

/// Appends the shortest lowercase hexadecimal form of `v`.
fn append_hex(out: &mut String, v: u64)
    ensures
        final(out)@ == old(out)@ + to_hex(v as nat),
    decreases v,
{
    if v < 16 {
        out.append(digit_str(v));
    } else {
        append_hex(out, v / 16);
        out.append(digit_str(v % 16));
    }
}

/// Appends `v` in lowercase hexadecimal, left-padded with zeros to `width` digits.
fn append_hex_padded(out: &mut String, v: u64, width: usize)
    ensures
        final(out)@ == old(out)@ + to_hex_padded(v as nat, width as nat),
{
    let len = hex_len(v);
    let ghost start = out@;
    let mut k: usize = len;
    proof { reveal_strlit("0"); }
    while k < width
        invariant
            len <= k,
            len < width ==> k <= width,
            len >= width ==> k == len,
            out@ == start + Seq::new((k - len) as nat, |i: int| '0'),
        decreases width - k,
    {
        proof { reveal_strlit("0"); }
        out.append("0");
        k = k + 1;
        assert(out@ =~= start + Seq::new((k - len) as nat, |i: int| '0'));
    }
    let ghost zeros = Seq::new((k - len) as nat, |i: int| '0');
    append_hex(out, v);
    if len >= width {
        assert(zeros =~= Seq::<char>::empty());
    }
    assert(zeros + to_hex(v as nat) =~= to_hex_padded(v as nat, width as nat));
    assert(out@ =~= start + to_hex_padded(v as nat, width as nat));
}

/// Writes an address range in catalog form, `lower-upper`, each bound in
/// lowercase hexadecimal of at least eight digits.
pub fn format_address_range(lower: u64, upper: u64) -> (r: String)
    ensures
        r@ == address_range_text(lower as nat, upper as nat),
{
    let mut out = String::new();
    append_hex_padded(&mut out, lower, 8);
    proof { reveal_strlit("-"); }
    out.append("-");
    append_hex_padded(&mut out, upper, 8);
    assert(out@ =~= address_range_text(lower as nat, upper as nat));
    out
}

} // verus!
