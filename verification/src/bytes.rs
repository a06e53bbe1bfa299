use vstd::prelude::*;

verus! {

/// The byte strings a vector of byte vectors stands for.
pub open spec fn views(s: Seq<Vec<u8>>) -> Seq<Seq<u8>> {
    s.map_values(|x: Vec<u8>| x@)
}

/// ASCII digit for one decimal place.
pub open spec fn digit(d: nat) -> u8 {
    (0x30 + d) as u8
}

/// Decimal rendering of an unsigned number, most significant digit first,
/// no leading zeroes (a lone `0` for zero).
pub open spec fn dec_digits(n: nat) -> Seq<u8>
    decreases n,
{
    if n < 10 {
        seq![digit(n)]
    } else {
        dec_digits(n / 10).push(digit(n % 10))
    }
}

/// Decimal rendering of a signed number: a leading `-` for negatives.
pub open spec fn int_bytes(i: int) -> Seq<u8> {
    if i < 0 {
        seq![0x2du8] + dec_digits((-i) as nat)
    } else {
        dec_digits(i as nat)
    }
}

/// Lowercase hexadecimal digit.
pub open spec fn hex_digit(d: nat) -> u8 {
    if d < 10 {
        (0x30 + d) as u8
    } else {
        (0x57 + d) as u8
    }
}

/// How one byte of a string appears inside a JSON string literal:
/// quote and backslash get a backslash escape, the control characters with
/// short names get those, the remaining control characters get `\u00xx`,
/// and every other byte stands for itself.
pub open spec fn esc_byte(b: u8) -> Seq<u8> {
    if b == 0x22 {
        seq![0x5cu8, 0x22u8]
    } else if b == 0x5c {
        seq![0x5cu8, 0x5cu8]
    } else if b == 0x08 {
        seq![0x5cu8, 0x62u8]
    } else if b == 0x09 {
        seq![0x5cu8, 0x74u8]
    } else if b == 0x0a {
        seq![0x5cu8, 0x6eu8]
    } else if b == 0x0c {
        seq![0x5cu8, 0x66u8]
    } else if b == 0x0d {
        seq![0x5cu8, 0x72u8]
    } else if b < 0x20 {
        seq![0x5cu8, 0x75u8, 0x30u8, 0x30u8, hex_digit((b / 16) as nat), hex_digit((b % 16) as nat)]
    } else {
        seq![b]
    }
}

/// JSON string-literal escaping of a byte string.
pub open spec fn json_escape(s: Seq<u8>) -> Seq<u8>
    decreases s.len(),
{
    if s.len() == 0 {
        Seq::empty()
    } else {
        esc_byte(s[0]) + json_escape(s.drop_first())
    }
}

/// How one byte of an object key appears inside a pointer segment:
/// `~` becomes `~0` and `/` becomes `~1`.
pub open spec fn ptr_esc_byte(b: u8) -> Seq<u8> {
    if b == 0x7e {
        seq![0x7eu8, 0x30u8]
    } else if b == 0x2f {
        seq![0x7eu8, 0x31u8]
    } else {
        seq![b]
    }
}

/// Pointer escaping of an object key.
pub open spec fn ptr_escape(s: Seq<u8>) -> Seq<u8>
    decreases s.len(),
{
    if s.len() == 0 {
        Seq::empty()
    } else {
        ptr_esc_byte(s[0]) + ptr_escape(s.drop_first())
    }
}

/// Escaping distributes over concatenation.
pub proof fn lemma_json_escape_concat(s: Seq<u8>, t: Seq<u8>)
    ensures
        json_escape(s + t) == json_escape(s) + json_escape(t),
    decreases s.len(),
{
    if s.len() == 0 {
        assert(s + t =~= t);
        assert(json_escape(s) + json_escape(t) =~= json_escape(t));
    } else {
        assert((s + t).drop_first() =~= s.drop_first() + t);
        lemma_json_escape_concat(s.drop_first(), t);
        assert(esc_byte(s[0]) + (json_escape(s.drop_first()) + json_escape(t)) =~= (esc_byte(
            s[0],
        ) + json_escape(s.drop_first())) + json_escape(t));
    }
}

/// One more byte extends the escaped form by that byte's escape.
pub proof fn lemma_json_escape_snoc(s: Seq<u8>, i: int)
    requires
        0 <= i < s.len(),
    ensures
        json_escape(s.take(i + 1)) == json_escape(s.take(i)) + esc_byte(s[i]),
{
    assert(s.take(i + 1) =~= s.take(i) + seq![s[i]]);
    lemma_json_escape_concat(s.take(i), seq![s[i]]);
    assert(seq![s[i]].drop_first() =~= Seq::<u8>::empty());
    assert(seq![s[i]][0] == s[i]);
    assert(json_escape(seq![s[i]]) == esc_byte(s[i]) + json_escape(Seq::<u8>::empty()));
    assert(esc_byte(s[i]) + Seq::<u8>::empty() =~= esc_byte(s[i]));
}

/// Pointer escaping distributes over concatenation.
pub proof fn lemma_ptr_escape_concat(s: Seq<u8>, t: Seq<u8>)
    ensures
        ptr_escape(s + t) == ptr_escape(s) + ptr_escape(t),
    decreases s.len(),
{
    if s.len() == 0 {
        assert(s + t =~= t);
        assert(ptr_escape(s) + ptr_escape(t) =~= ptr_escape(t));
    } else {
        assert((s + t).drop_first() =~= s.drop_first() + t);
        lemma_ptr_escape_concat(s.drop_first(), t);
        assert(ptr_esc_byte(s[0]) + (ptr_escape(s.drop_first()) + ptr_escape(t)) =~= (ptr_esc_byte(
            s[0],
        ) + ptr_escape(s.drop_first())) + ptr_escape(t));
    }
}

/// One more byte extends the escaped key by that byte's escape.
pub proof fn lemma_ptr_escape_snoc(s: Seq<u8>, i: int)
    requires
        0 <= i < s.len(),
    ensures
        ptr_escape(s.take(i + 1)) == ptr_escape(s.take(i)) + ptr_esc_byte(s[i]),
{
    assert(s.take(i + 1) =~= s.take(i) + seq![s[i]]);
    lemma_ptr_escape_concat(s.take(i), seq![s[i]]);
    assert(seq![s[i]].drop_first() =~= Seq::<u8>::empty());
    assert(seq![s[i]][0] == s[i]);
    assert(ptr_escape(seq![s[i]]) == ptr_esc_byte(s[i]) + ptr_escape(Seq::<u8>::empty()));
    assert(ptr_esc_byte(s[i]) + Seq::<u8>::empty() =~= ptr_esc_byte(s[i]));
}

/// Append the bytes of `src` unchanged.
pub fn push_bytes(src: &Vec<u8>, out: &mut Vec<u8>)
    ensures
        final(out)@ == old(out)@ + src@,
{
    let mut i: usize = 0;
    while i < src.len()
        invariant
            i <= src@.len(),
            out@ == old(out)@ + src@.take(i as int),
        decreases src@.len() - i,
    {
        out.push(src[i]);
        proof {
            assert(out@ =~= old(out)@ + src@.take(i + 1));
        }
        i = i + 1;
    }
    proof {
        assert(src@.take(i as int) =~= src@);
    }
}

/// Append the decimal digits of `n`.
pub fn push_digits(n: u64, out: &mut Vec<u8>)
    ensures
        final(out)@ == old(out)@ + dec_digits(n as nat),
    decreases n,
{
    if n < 10 {
        out.push(0x30 + n as u8);
        assert(out@ =~= old(out)@ + dec_digits(n as nat));
    } else {
        push_digits(n / 10, out);
        out.push(0x30 + (n % 10) as u8);
        assert(out@ =~= old(out)@ + dec_digits(n as nat));
    }
}

/// Append the decimal rendering of `i`, with a sign for negatives.
pub fn push_int(i: i64, out: &mut Vec<u8>)
    ensures
        final(out)@ == old(out)@ + int_bytes(i as int),
{
    if i >= 0 {
        push_digits(i as u64, out);
    } else {
        out.push(0x2d);
        let m: u64 = (-(i as i128)) as u64;
        assert(m as nat == -(i as int));
        push_digits(m, out);
        assert(out@ =~= old(out)@ + int_bytes(i as int));
    }
}

/// Append the JSON string-literal escaping of `s`.
pub fn push_json_escaped(s: &Vec<u8>, out: &mut Vec<u8>)
    ensures
        final(out)@ == old(out)@ + json_escape(s@),
{
    let ghost orig = out@;
    let mut i: usize = 0;
    while i < s.len()
        invariant
            i <= s@.len(),
            out@ == orig + json_escape(s@.take(i as int)),
        decreases s@.len() - i,
    {
        let b = s[i];
        if b == 0x22 {
            out.push(0x5c);
            out.push(0x22);
        } else if b == 0x5c {
            out.push(0x5c);
            out.push(0x5c);
        } else if b == 0x08 {
            out.push(0x5c);
            out.push(0x62);
        } else if b == 0x09 {
            out.push(0x5c);
            out.push(0x74);
        } else if b == 0x0a {
            out.push(0x5c);
            out.push(0x6e);
        } else if b == 0x0c {
            out.push(0x5c);
            out.push(0x66);
        } else if b == 0x0d {
            out.push(0x5c);
            out.push(0x72);
        } else if b < 0x20 {
            out.push(0x5c);
            out.push(0x75);
            out.push(0x30);
            out.push(0x30);
            let hi = b / 16;
            let lo = b % 16;
            out.push(if hi < 10 { 0x30 + hi } else { 0x57 + hi });
            out.push(if lo < 10 { 0x30 + lo } else { 0x57 + lo });
        } else {
            out.push(b);
        }
        proof {
            lemma_json_escape_snoc(s@, i as int);
            assert(out@ =~= orig + json_escape(s@.take(i + 1)));
        }
        i = i + 1;
    }
    proof {
        assert(s@.take(i as int) =~= s@);
    }
}

/// Append the pointer escaping of an object key.
pub fn push_ptr_escaped(s: &Vec<u8>, out: &mut Vec<u8>)
    ensures
        final(out)@ == old(out)@ + ptr_escape(s@),
{
    let ghost orig = out@;
    let mut i: usize = 0;
    while i < s.len()
        invariant
            i <= s@.len(),
            out@ == orig + ptr_escape(s@.take(i as int)),
        decreases s@.len() - i,
    {
        let b = s[i];
        if b == 0x7e {
            out.push(0x7e);
            out.push(0x30);
        } else if b == 0x2f {
            out.push(0x7e);
            out.push(0x31);
        } else {
            out.push(b);
        }
        proof {
            lemma_ptr_escape_snoc(s@, i as int);
            assert(out@ =~= orig + ptr_escape(s@.take(i + 1)));
        }
        i = i + 1;
    }
    proof {
        assert(s@.take(i as int) =~= s@);
    }
}

} // verus!
