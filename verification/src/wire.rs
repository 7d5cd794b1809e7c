use vstd::prelude::*;
use vstd::arithmetic::div_mod::{lemma_div_is_ordered, lemma_fundamental_div_mod};
use vstd::std_specs::vec::spec_vec_len;

verus! {

/// The base-128 varint encoding of a number: each byte carries seven data
/// bits, least significant group first; every byte but the last has its top
/// bit set.
pub open spec fn spec_enc_varint(n: nat) -> Seq<u8>
    decreases n,
{
    if n < 128 {
        seq![n as u8]
    } else {
        seq![(n % 128 + 128) as u8] + spec_enc_varint(n / 128)
    }
}

/// Reads a varint at position `i` of `b`: the decoded number and the position
/// just past it. Rejects a truncated varint and a non-minimal encoding (a
/// continuation byte followed by a zero remainder), so that every number has
/// exactly one accepted encoding.
pub open spec fn spec_dec_varint(b: Seq<u8>, i: int) -> Option<(nat, int)>
    decreases b.len() - i,
{
    if i < 0 || i >= b.len() {
        None
    } else {
        let x = b[i];
        if x < 128 {
            Some((x as nat, i + 1))
        } else {
            match spec_dec_varint(b, i + 1) {
                None => None,
                Some((m, j)) => {
                    if m >= 1 {
                        Some((((x - 128) + m * 128) as nat, j))
                    } else {
                        None
                    }
                },
            }
        }
    }
}

/// A decoded varint ends past where it starts and within the buffer.
pub proof fn lemma_dec_varint_bounds(b: Seq<u8>, i: int)
    ensures
        spec_dec_varint(b, i) matches Some((n, j)) ==> i < j <= b.len(),
    decreases b.len() - i,
{
    if 0 <= i < b.len() {
        if b[i] >= 128 {
            lemma_dec_varint_bounds(b, i + 1);
        }
    }
}

/// Reading a varint where an encoding was laid down yields the encoded number
/// and stops just past it.
pub proof fn lemma_varint_round_trip(b: Seq<u8>, i: int, n: nat)
    requires
        0 <= i,
        i + spec_enc_varint(n).len() <= b.len(),
        b.subrange(i, i + spec_enc_varint(n).len() as int) == spec_enc_varint(n),
    ensures
        spec_dec_varint(b, i) == Some((n, i + spec_enc_varint(n).len() as int)),
    decreases n,
{
    let e = spec_enc_varint(n);
    if n < 128 {
        assert(b[i] == e[0]);
        assert(b[i] == n as u8);
    } else {
        let tail = spec_enc_varint(n / 128);
        assert(e == seq![(n % 128 + 128) as u8] + tail);
        assert(b[i] == e[0]);
        assert(b[i] == (n % 128 + 128) as u8);
        assert(n % 128 + 128 < 256);
        assert(b[i] >= 128);
        assert(b.subrange(i + 1, i + 1 + tail.len() as int) =~= tail) by {
            assert forall|k: int| 0 <= k < tail.len() implies b[i + 1 + k] == tail[k] by {
                assert(b.subrange(i, i + e.len() as int)[k + 1] == e[k + 1]);
            }
        }
        lemma_varint_round_trip(b, i + 1, n / 128);
        assert(n / 128 >= 1);
        assert((b[i] - 128) + (n / 128) * 128 == n) by {
            lemma_fundamental_div_mod(n as int, 128);
        }
    }
}

/// A length-prefixed block of bytes: the length as a varint, then the bytes.
pub open spec fn spec_enc_bytes(data: Seq<u8>) -> Seq<u8> {
    spec_enc_varint(data.len()) + data
}

/// Reads a length-prefixed block of bytes at position `i` of `b`.
pub open spec fn spec_dec_bytes(b: Seq<u8>, i: int) -> Option<(Seq<u8>, int)> {
    match spec_dec_varint(b, i) {
        None => None,
        Some((len, j)) => {
            if j + len <= b.len() {
                Some((b.subrange(j, j + len), j + len as int))
            } else {
                None
            }
        },
    }
}

/// A decoded block ends past where it starts and within the buffer.
pub proof fn lemma_dec_bytes_bounds(b: Seq<u8>, i: int)
    ensures
        spec_dec_bytes(b, i) matches Some((data, j)) ==> i < j <= b.len(),
{
    lemma_dec_varint_bounds(b, i);
}

/// Reading a length-prefixed block where one was laid down yields the encoded
/// bytes and stops just past them.
pub proof fn lemma_bytes_round_trip(b: Seq<u8>, i: int, data: Seq<u8>)
    requires
        0 <= i,
        i + spec_enc_bytes(data).len() <= b.len(),
        b.subrange(i, i + spec_enc_bytes(data).len() as int) == spec_enc_bytes(data),
    ensures
        spec_dec_bytes(b, i) == Some((data, i + spec_enc_bytes(data).len() as int)),
{
    let lv = spec_enc_varint(data.len());
    let e = spec_enc_bytes(data);
    assert(b.subrange(i, i + lv.len() as int) =~= lv) by {
        assert forall|k: int| 0 <= k < lv.len() implies b[i + k] == lv[k] by {
            assert(b.subrange(i, i + e.len() as int)[k] == e[k]);
        }
    }
    lemma_varint_round_trip(b, i, data.len());
    let j = i + lv.len() as int;
    assert(b.subrange(j, j + data.len() as int) =~= data) by {
        assert forall|k: int| 0 <= k < data.len() implies b[j + k] == data[k] by {
            assert(b.subrange(i, i + e.len() as int)[lv.len() + k] == e[lv.len() as int + k]);
        }
    }
}

/// Appends the varint encoding of `n` to `out`.
pub fn enc_varint(out: &mut Vec<u8>, n: u64)
    ensures
        final(out)@ == old(out)@ + spec_enc_varint(n as nat),
{
    let ghost base = out@;
    let ghost whole = spec_enc_varint(n as nat);
    let mut m: u64 = n;
    while m >= 128
        invariant
            out@.len() >= base.len(),
            out@.subrange(0, base.len() as int) == base,
            out@.subrange(base.len() as int, out@.len() as int) + spec_enc_varint(m as nat)
                == whole,
        decreases m,
    {
        let byte: u8 = ((m % 128) + 128) as u8;
        out.push(byte);
        proof {
            assert(out@.subrange(0, base.len() as int) =~= base);
            assert(out@.subrange(base.len() as int, out@.len() as int)
                =~= out@.subrange(base.len() as int, out@.len() - 1) + seq![byte]);
            assert(spec_enc_varint(m as nat) == seq![byte] + spec_enc_varint((m / 128) as nat));
        }
        m = m / 128;
    }
    out.push(m as u8);
    proof {
        assert(spec_enc_varint(m as nat) == seq![m as u8]);
        assert(out@.subrange(base.len() as int, out@.len() as int)
            =~= out@.subrange(base.len() as int, out@.len() - 1) + seq![m as u8]);
        assert(out@.subrange(0, base.len() as int) =~= base);
        assert(out@ =~= base + out@.subrange(base.len() as int, out@.len() as int));
    }
}

/// Reads a varint at position `i` of `b`. Returns the number and the position
/// just past it, or nothing when the buffer holds no valid varint there or
/// the number does not fit in 64 bits.
pub fn dec_varint(b: &Vec<u8>, i: usize) -> (r: Option<(u64, usize)>)
    ensures
        match r {
            Some((n, j)) => spec_dec_varint(b@, i as int) == Some((n as nat, j as int))
                && i < j <= b@.len(),
            None => match spec_dec_varint(b@, i as int) {
                None => true,
                Some((n, _)) => n > u64::MAX,
            },
        },
    decreases b@.len() - i,
{
    if i >= b.len() {
        return None;
    }
    let x = b[i];
    if x < 128 {
        Some((x as u64, i + 1))
    } else {
        proof {
            lemma_dec_varint_bounds(b@, i + 1);
        }
        match dec_varint(b, i + 1) {
            None => None,
            Some((m, j)) => {
                if m < 1 {
                    return None;
                }
                let low: u64 = (x - 128) as u64;
                let limit: u64 = (u64::MAX - low) / 128;
                if m <= limit {
                    proof {
                        lemma_div_is_ordered(m as int, (u64::MAX - low) as int / 128, 1);
                        lemma_fundamental_div_mod((u64::MAX - low) as int, 128);
                        assert(m * 128 <= ((u64::MAX - low) / 128) * 128) by (nonlinear_arith)
                            requires
                                m <= (u64::MAX - low) / 128,
                        ;
                        assert(((u64::MAX - low) / 128) * 128 <= u64::MAX - low);
                    }
                    Some((low + m * 128, j))
                } else {
                    proof {
                        assert((m as nat) * 128 > u64::MAX - low) by (nonlinear_arith)
                            requires
                                m > (u64::MAX - low) / 128,
                                m <= u64::MAX,
                                low < 128,
                            {
                                lemma_fundamental_div_mod((u64::MAX - low) as int, 128);
                            }
                        ;
                    }
                    None
                }
            },
        }
    }
}

/// Copies `b[from..to]` into a fresh vector.
pub fn sub_vec(b: &Vec<u8>, from: usize, to: usize) -> (r: Vec<u8>)
    requires
        from <= to <= b@.len(),
    ensures
        r@ == b@.subrange(from as int, to as int),
{
    let mut r: Vec<u8> = Vec::new();
    let mut k: usize = from;
    while k < to
        invariant
            from <= k <= to <= b@.len(),
            r@ == b@.subrange(from as int, k as int),
        decreases to - k,
    {
        r.push(b[k]);
        proof {
            assert(r@ =~= b@.subrange(from as int, k + 1));
        }
        k = k + 1;
    }
    r
}

/// Appends the length-prefixed encoding of `data` to `out`.
pub fn enc_bytes(out: &mut Vec<u8>, data: &Vec<u8>)
    ensures
        final(out)@ == old(out)@ + spec_enc_bytes(data@),
{
    enc_varint(out, data.len() as u64);
    let ghost mid = out@;
    let mut k: usize = 0;
    while k < data.len()
        invariant
            k <= data@.len(),
            out@ == mid + data@.subrange(0, k as int),
        decreases data@.len() - k,
    {
        out.push(data[k]);
        proof {
            assert(out@ =~= mid + data@.subrange(0, k + 1));
        }
        k = k + 1;
    }
    proof {
        assert(data@.subrange(0, data@.len() as int) =~= data@);
        assert(out@ =~= old(out)@ + spec_enc_bytes(data@));
    }
}

/// Reads a length-prefixed block of bytes at position `i` of `b`.
pub fn dec_bytes(b: &Vec<u8>, i: usize) -> (r: Option<(Vec<u8>, usize)>)
    ensures
        match r {
            Some((data, j)) => spec_dec_bytes(b@, i as int) == Some((data@, j as int))
                && i < j <= b@.len(),
            None => spec_dec_bytes(b@, i as int) is None,
        },
{
    match dec_varint(b, i) {
        None => {
            proof {
                broadcast use vstd::std_specs::vec::axiom_spec_len;

                match spec_dec_varint(b@, i as int) {
                    Some((n, j)) => {
                        lemma_dec_varint_bounds(b@, i as int);
                        assert(b@.len() == spec_vec_len(b));
                        assert(j + n > b@.len());
                    },
                    None => {},
                }
            }
            None
        },
        Some((len, j)) => {
            if len <= (b.len() - j) as u64 {
                let end = j + (len as usize);
                Some((sub_vec(b, j, end), end))
            } else {
                None
            }
        },
    }
}


/// Appends a slice to `out`.
pub fn push_slice(out: &mut Vec<u8>, data: &[u8])
    ensures
        final(out)@ == old(out)@ + data@,
{
    let mut k: usize = 0;
    let ghost base = out@;
    while k < data.len()
        invariant
            k <= data@.len(),
            out@ == base + data@.subrange(0, k as int),
        decreases data@.len() - k,
    {
        out.push(data[k]);
        proof {
            assert(out@ =~= base + data@.subrange(0, k + 1));
        }
        k = k + 1;
    }
    proof {
        assert(base + data@.subrange(0, data@.len() as int) =~= base + data@);
    }
}

/// Appends the length-prefixed encoding of a slice to `out`.
pub fn enc_slice(out: &mut Vec<u8>, data: &[u8])
    ensures
        final(out)@ == old(out)@ + spec_enc_bytes(data@),
{
    enc_varint(out, data.len() as u64);
    push_slice(out, data);
    proof {
        assert(out@ =~= old(out)@ + spec_enc_bytes(data@));
    }
}


/// Compares two byte slices for equality.
pub fn bytes_eq(a: &[u8], b: &[u8]) -> (r: bool)
    ensures
        r == (a@ == b@),
{
    if a.len() != b.len() {
        proof {
            assert(a@ != b@);
        }
        return false;
    }
    let mut k: usize = 0;
    while k < a.len()
        invariant
            k <= a@.len(),
            a@.len() == b@.len(),
            forall|j: int| 0 <= j < k ==> a@[j] == b@[j],
        decreases a@.len() - k,
    {
        if a[k] != b[k] {
            proof {
                assert(a@ != b@);
            }
            return false;
        }
        k = k + 1;
    }
    proof {
        assert(a@ =~= b@);
    }
    true
}

/// Compares two strings for equality of their characters, by way of their
/// UTF-8 bytes.
pub fn str_eq(a: &str, b: &str) -> (r: bool)
    ensures
        r == (a@ == b@),
{
    let r = bytes_eq(a.as_bytes(), b.as_bytes());
    proof {
        vstd::utf8::encode_utf8_decode_utf8(a@);
        vstd::utf8::encode_utf8_decode_utf8(b@);
    }
    r
}


/// Whether `n` occurs in `h` as a contiguous run of characters.
pub open spec fn spec_str_contains(h: Seq<char>, n: Seq<char>) -> bool {
    exists|i: int| 0 <= i && i + n.len() <= h.len() && #[trigger] h.subrange(i, i + n.len() as int) == n
}

/// Searches `hay` for `needle` as a contiguous run of characters.
pub fn str_contains(hay: &str, needle: &str) -> (r: bool)
    ensures
        r == spec_str_contains(hay@, needle@),
{
    let hl = hay.unicode_len();
    let nl = needle.unicode_len();
    if nl > hl {
        return false;
    }
    if nl == 0 {
        proof {
            let zero: int = 0;
            assert(hay@.subrange(zero, zero + needle@.len() as int) =~= needle@);
        }
        return true;
    }
    let mut i: usize = 0;
    while i <= hl - nl
        invariant
            1 <= nl <= hl,
            i <= hl - nl + 1,
            hl == hay@.len(),
            nl == needle@.len(),
            forall|x: int|
                0 <= x < i ==> #[trigger] hay@.subrange(x, x + needle@.len() as int) != needle@,
        decreases hl - i,
    {
        let mut j: usize = 0;
        let mut matched = true;
        while j < nl && matched
            invariant
                matched ==> forall|y: int| 0 <= y < j ==> hay@[i + y] == needle@[y],
                !matched ==> hay@.subrange(i as int, i + needle@.len() as int) != needle@,
                i + nl <= hl,
                hl == hay@.len(),
                nl == needle@.len(),
                j <= nl,
            decreases nl - j + (if matched { 1int } else { 0int }),
        {
            if hay.get_char(i + j) != needle.get_char(j) {
                proof {
                    assert(hay@.subrange(i as int, i + needle@.len() as int)[j as int]
                        != needle@[j as int]);
                }
                matched = false;
            } else {
                j = j + 1;
            }
        }
        if matched {
            proof {
                assert(hay@.subrange(i as int, i + needle@.len() as int) =~= needle@);
            }
            return true;
        }
        i = i + 1;
    }
    proof {
        if spec_str_contains(hay@, needle@) {
            let x = choose|x: int|
                0 <= x && x + needle@.len() <= hay@.len() && #[trigger] hay@.subrange(
                    x,
                    x + needle@.len() as int,
                ) == needle@;
            assert(x < i);
        }
    }
    false
}


/// The decimal digit character for one value below ten.
pub open spec fn spec_digit(d: nat) -> char {
    if d == 0 {
        '0'
    } else if d == 1 {
        '1'
    } else if d == 2 {
        '2'
    } else if d == 3 {
        '3'
    } else if d == 4 {
        '4'
    } else if d == 5 {
        '5'
    } else if d == 6 {
        '6'
    } else if d == 7 {
        '7'
    } else if d == 8 {
        '8'
    } else {
        '9'
    }
}

/// The decimal rendering of a number, most significant digit first.
pub open spec fn spec_u32_digits(n: nat) -> Seq<char>
    decreases n,
{
    if n < 10 {
        seq![spec_digit(n)]
    } else {
        spec_u32_digits(n / 10).push(spec_digit(n % 10))
    }
}

/// Appends the decimal rendering of `n` to `out`.
fn push_u32_digits(out: &mut String, n: u32)
    ensures
        final(out)@ == old(out)@ + spec_u32_digits(n as nat),
    decreases n,
{
    if n >= 10 {
        push_u32_digits(out, n / 10);
    }
    let d = n % 10;
    proof {
        reveal_strlit("0");
        reveal_strlit("1");
        reveal_strlit("2");
        reveal_strlit("3");
        reveal_strlit("4");
        reveal_strlit("5");
        reveal_strlit("6");
        reveal_strlit("7");
        reveal_strlit("8");
        reveal_strlit("9");
    }
    if d == 0 {
        out.append("0");
    } else if d == 1 {
        out.append("1");
    } else if d == 2 {
        out.append("2");
    } else if d == 3 {
        out.append("3");
    } else if d == 4 {
        out.append("4");
    } else if d == 5 {
        out.append("5");
    } else if d == 6 {
        out.append("6");
    } else if d == 7 {
        out.append("7");
    } else if d == 8 {
        out.append("8");
    } else {
        out.append("9");
    }
    proof {
        assert(out@ =~= old(out)@ + spec_u32_digits(n as nat));
    }
}

/// The decimal rendering of a number.
pub fn u32_string(n: u32) -> (r: String)
    ensures
        r@ == spec_u32_digits(n as nat),
{
    let mut r = String::new();
    push_u32_digits(&mut r, n);
    proof {
        assert(Seq::<char>::empty() + spec_u32_digits(n as nat) =~= spec_u32_digits(n as nat));
    }
    r
}

} // verus!
