use vstd::prelude::*;

verus! {

/// The base-128 varint of `n`: seven bits per byte, least significant group first,
/// the high bit set on every byte but the last.
pub open spec fn varint(n: nat) -> Seq<u8>
    decreases n,
{
    if n < 128 {
        seq![n as u8]
    } else {
        seq![((n % 128) + 128) as u8] + varint(n / 128)
    }
}

/// Reads a varint at the start of `s`: its value and the number of bytes it takes.
pub open spec fn parse_varint(s: Seq<u8>) -> Option<(nat, nat)>
    decreases s.len(),
{
    if s.len() == 0 {
        None
    } else if s[0] < 128 {
        Some((s[0] as nat, 1))
    } else {
        match parse_varint(s.drop_first()) {
            Some((v, k)) => Some((((s[0] - 128) as nat) + 128 * v, k + 1)),
            None => None,
        }
    }
}

/// The stored form of a byte string: its length as a varint, then its bytes.
pub open spec fn encode(obj: Seq<u8>) -> Seq<u8> {
    varint(obj.len()) + obj
}

/// The byte string that `s` stores, where `s` is exactly one length prefix and that
/// many bytes.
pub open spec fn decode(s: Seq<u8>) -> Option<Seq<u8>> {
    match parse_varint(s) {
        Some((n, k)) => if k + n == s.len() {
            Some(s.subrange(k as int, s.len() as int))
        } else {
            None
        },
        None => None,
    }
}

/// Why stored bytes could not be read back as a record.
#[derive(Clone, Copy, Debug, PartialEq, Eq, Structural)]
pub enum DeserializeError {
    /// The bytes end before the length prefix does.
    TruncatedLength,
    /// The length prefix disagrees with the number of bytes that follow it.
    LengthMismatch,
}

proof fn lemma_parse_varint_prefix(n: nat, rest: Seq<u8>)
    ensures
        parse_varint(varint(n) + rest) == Some((n, varint(n).len())),
    decreases n,
{
    let s = varint(n) + rest;
    if n < 128 {
        assert(s[0] == n as u8);
    } else {
        lemma_parse_varint_prefix(n / 128, rest);
        assert(s.drop_first() =~= varint(n / 128) + rest);
        assert(s[0] == ((n % 128) + 128) as u8);
    }
}

/// Reading back what was stored gives the original byte string.
pub proof fn lemma_decode_encode(obj: Seq<u8>)
    ensures
        decode(encode(obj)) == Some(obj),
{
    lemma_parse_varint_prefix(obj.len(), obj);
    let s = encode(obj);
    assert(s.subrange(varint(obj.len()).len() as int, s.len() as int) =~= obj);
}

proof fn lemma_parse_step(s: Seq<u8>, i: int)
    requires
        0 <= i < s.len(),
        s[i] >= 128,
    ensures
        parse_varint(s.subrange(i, s.len() as int)) == match parse_varint(
            s.subrange(i + 1, s.len() as int),
        ) {
            Some((v, k)) => Some((((s[i] - 128) as nat) + 128 * v, k + 1)),
            None => None,
        },
{
    assert(s.subrange(i, s.len() as int).drop_first() =~= s.subrange(i + 1, s.len() as int));
}

proof fn lemma_parse_grows(s: Seq<u8>, lo: int, hi: int, v: nat, k: nat)
    requires
        0 <= lo <= hi < s.len(),
        forall|j: int| lo <= j < hi ==> s[j] >= 128,
        parse_varint(s.subrange(hi, s.len() as int)) == Some((v, k)),
    ensures
        match parse_varint(s.subrange(lo, s.len() as int)) {
            Some((w, m)) => w >= v && m == k + (hi - lo),
            None => false,
        },
    decreases hi - lo,
{
    if lo < hi {
        lemma_parse_grows(s, lo + 1, hi, v, k);
        lemma_parse_step(s, lo);
    }
}

/// Writes the stored form of `obj`.
pub fn serialize(obj: &Vec<u8>) -> (r: Vec<u8>)
    ensures
        r@ == encode(obj@),
{
    let mut out: Vec<u8> = Vec::new();
    let mut n: usize = obj.len();
    while n >= 128
        invariant
            out@ + varint(n as nat) == varint(obj@.len()),
        decreases n,
    {
        let ghost prev = out@;
        out.push(((n % 128) + 128) as u8);
        assert(varint(n as nat) == seq![((n % 128) + 128) as u8] + varint((n / 128) as nat));
        assert(out@ + varint((n / 128) as nat) =~= prev + varint(n as nat));
        n = n / 128;
    }
    out.push(n as u8);
    assert(out@ =~= varint(obj@.len()));
    let mut i: usize = 0;
    while i < obj.len()
        invariant
            i <= obj@.len(),
            out@ == varint(obj@.len()) + obj@.subrange(0, i as int),
        decreases obj@.len() - i,
    {
        out.push(obj[i]);
        i = i + 1;
        assert(out@ =~= varint(obj@.len()) + obj@.subrange(0, i as int));
    }
    assert(obj@.subrange(0, obj@.len() as int) =~= obj@);
    out
}

/// Reads a record back from exactly the bytes of its stored form.
pub fn deserialize(bytes: &[u8]) -> (r: Result<Vec<u8>, DeserializeError>)
    ensures
        match r {
            Ok(obj) => decode(bytes@) == Some(obj@),
            Err(_) => decode(bytes@) is None,
        },
        r == Err::<Vec<u8>, DeserializeError>(DeserializeError::TruncatedLength) <==> parse_varint(
            bytes@,
        ) is None,
{
    let len = bytes.len();
    // Find the last byte of the length prefix.
    let mut t: usize = 0;
    while t < len && bytes[t] >= 128
        invariant
            t <= len,
            len == bytes@.len(),
            forall|j: int| 0 <= j < t ==> bytes@[j] >= 128,
        decreases len - t,
    {
        t = t + 1;
    }
    if t == len {
        proof {
            lemma_no_terminator(bytes@, 0);
            assert(bytes@.subrange(0, len as int) =~= bytes@);
        }
        return Err(DeserializeError::TruncatedLength);
    }
    let s = Ghost(bytes@);
    proof {
        assert(s@.subrange(t as int, len as int)[0] == s@[t as int]);
    }
    // Accumulate the prefix from its last byte back to the first.
    let mut value: usize = bytes[t] as usize;
    let mut i: usize = t;
    while i > 0
        invariant
            i <= t < len,
            len == s@.len(),
            s@ == bytes@,
            forall|j: int| 0 <= j < t ==> s@[j] >= 128,
            parse_varint(s@.subrange(i as int, len as int)) == Some((value as nat, (t - i + 1) as nat)),
        decreases i,
    {
        proof {
            lemma_parse_step(s@, i - 1);
        }
        let ghost next: nat = ((s@[i - 1] - 128) as nat) + 128 * (value as nat);
        if value > len / 128 {
            proof {
                assert(next > len) by (nonlinear_arith)
                    requires
                        value > len / 128,
                        next >= 128 * (value as nat),
                ;
                lemma_parse_grows(s@, 0, i - 1, next, (t - i + 2) as nat);
                assert(s@.subrange(0, len as int) =~= s@);
            }
            return Err(DeserializeError::LengthMismatch);
        }
        assert(128 * value <= len) by (nonlinear_arith)
            requires
                value <= len / 128,
        ;
        let digit: usize = (bytes[i - 1] - 128) as usize;
        match (128 * value).checked_add(digit) {
            Some(v) => {
                value = v;
            },
            None => {
                proof {
                    lemma_parse_grows(s@, 0, i - 1, next, (t - i + 2) as nat);
                    assert(s@.subrange(0, len as int) =~= s@);
                }
                return Err(DeserializeError::LengthMismatch);
            },
        }
        i = i - 1;
    }
    assert(s@.subrange(0, len as int) =~= s@);
    let k: usize = t + 1;
    if value > len || len - value != k {
        return Err(DeserializeError::LengthMismatch);
    }
    let mut obj: Vec<u8> = Vec::new();
    let mut j: usize = k;
    while j < len
        invariant
            k <= j <= len,
            len == bytes@.len(),
            obj@ == bytes@.subrange(k as int, j as int),
        decreases len - j,
    {
        obj.push(bytes[j]);
        j = j + 1;
        assert(obj@ =~= bytes@.subrange(k as int, j as int));
    }
    Ok(obj)
}

proof fn lemma_no_terminator(s: Seq<u8>, lo: int)
    requires
        0 <= lo <= s.len(),
        forall|j: int| lo <= j < s.len() ==> s[j] >= 128,
    ensures
        parse_varint(s.subrange(lo, s.len() as int)) is None,
    decreases s.len() - lo,
{
    if lo < s.len() {
        lemma_no_terminator(s, lo + 1);
        lemma_parse_step(s, lo);
    }
}

} // verus!
