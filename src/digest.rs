//! Content digests: SHA-256 identities of byte strings, with their canonical
//! text form `sha256:<64 lowercase hex digits>`.
use vstd::prelude::*;

verus! {

/// What SHA-256 gives for a byte string.
pub uninterp spec fn sha256_of(data: Seq<u8>) -> Seq<u8>;

/// Relies on ring::digest::digest with the SHA256 algorithm: a 32-byte value
/// that depends on the input bytes alone.
#[verifier::external_body]
fn sha256(data: &[u8]) -> (r: Vec<u8>)
    ensures
        r@ == sha256_of(data@),
        r@.len() == 32,
{
    ring::digest::digest(&ring::digest::SHA256, data).as_ref().to_vec()
}

/// The lowercase hex digit of a value below 16.
pub open spec fn hex_char(v: u8) -> char {
    if v == 0 { '0' } else if v == 1 { '1' } else if v == 2 { '2' } else if v == 3 { '3' }
    else if v == 4 { '4' } else if v == 5 { '5' } else if v == 6 { '6' } else if v == 7 { '7' }
    else if v == 8 { '8' } else if v == 9 { '9' } else if v == 10 { 'a' } else if v == 11 { 'b' }
    else if v == 12 { 'c' } else if v == 13 { 'd' } else if v == 14 { 'e' } else { 'f' }
}

pub open spec fn is_hex_char(c: char) -> bool {
    exists|v: u8| v < 16 && hex_char(v) == c
}

/// Two lowercase hex digits per byte, most significant first.
pub open spec fn hex_of(b: Seq<u8>) -> Seq<char>
    decreases b.len(),
{
    if b.len() == 0 {
        Seq::empty()
    } else {
        let last = b.last();
        hex_of(b.drop_last()) + seq![hex_char(last / 16), hex_char(last % 16)]
    }
}

pub open spec fn algorithm_prefix() -> Seq<char> {
    seq!['s', 'h', 'a', '2', '5', '6', ':']
}

/// The canonical text form of a digest value.
pub open spec fn canonical(b: Seq<u8>) -> Seq<char> {
    algorithm_prefix() + hex_of(b)
}

/// A well-formed digest string: the algorithm prefix and 64 lowercase hex digits.
pub open spec fn is_digest_string(s: Seq<char>) -> bool {
    &&& s.len() == 71
    &&& s.subrange(0, 7) == algorithm_prefix()
    &&& forall|i: int| 7 <= i < 71 ==> is_hex_char(#[trigger] s[i])
}

/// A SHA-256 digest, compared by value.
#[derive(Debug)]
pub struct Digest {
    pub bytes: Vec<u8>,
}

impl View for Digest {
    type V = Seq<u8>;

    open spec fn view(&self) -> Seq<u8> {
        self.bytes@
    }
}

impl Clone for Digest {
    fn clone(&self) -> (r: Digest)
        ensures
            r@ == self@,
    {
        Digest { bytes: self.bytes.clone() }
    }
}

impl PartialEq for Digest {
    fn eq(&self, other: &Digest) -> (r: bool) {
        bytes_equal(&self.bytes, &other.bytes)
    }
}

impl vstd::std_specs::cmp::PartialEqSpecImpl for Digest {
    open spec fn obeys_eq_spec() -> bool {
        true
    }

    open spec fn eq_spec(&self, other: &Digest) -> bool {
        self@ == other@
    }
}

impl Eq for Digest {}

pub fn bytes_equal(a: &Vec<u8>, b: &Vec<u8>) -> (r: bool)
    ensures
        r == (a@ == b@),
{
    if a.len() != b.len() {
        return false;
    }
    let mut i: usize = 0;
    while i < a.len()
        invariant
            a@.len() == b@.len(),
            i <= a@.len(),
            forall|j: int| 0 <= j < i ==> a@[j] == b@[j],
        decreases a.len() - i,
    {
        if a[i] != b[i] {
            return false;
        }
        i = i + 1;
    }
    assert(a@ =~= b@);
    true
}

proof fn lemma_hex_push(b: Seq<u8>, x: u8)
    ensures
        hex_of(b.push(x)) == hex_of(b) + seq![hex_char(x / 16), hex_char(x % 16)],
{
    assert(b.push(x).drop_last() =~= b);
}

proof fn lemma_hex_len(b: Seq<u8>)
    ensures
        hex_of(b).len() == 2 * b.len(),
    decreases b.len(),
{
    if b.len() > 0 {
        lemma_hex_len(b.drop_last());
    }
}

fn hex_str(v: u8) -> (r: &'static str)
    requires
        v < 16,
    ensures
        r@ == seq![hex_char(v)],
{
    match v {
        0 => { proof { reveal_strlit("0"); } "0" }
        1 => { proof { reveal_strlit("1"); } "1" }
        2 => { proof { reveal_strlit("2"); } "2" }
        3 => { proof { reveal_strlit("3"); } "3" }
        4 => { proof { reveal_strlit("4"); } "4" }
        5 => { proof { reveal_strlit("5"); } "5" }
        6 => { proof { reveal_strlit("6"); } "6" }
        7 => { proof { reveal_strlit("7"); } "7" }
        8 => { proof { reveal_strlit("8"); } "8" }
        9 => { proof { reveal_strlit("9"); } "9" }
        10 => { proof { reveal_strlit("a"); } "a" }
        11 => { proof { reveal_strlit("b"); } "b" }
        12 => { proof { reveal_strlit("c"); } "c" }
        13 => { proof { reveal_strlit("d"); } "d" }
        14 => { proof { reveal_strlit("e"); } "e" }
        _ => { proof { reveal_strlit("f"); } "f" }
    }
}

/// The value of a lowercase hex digit, if `c` is one.
fn hex_value(c: char) -> (r: Option<u8>)
    ensures
        r matches Some(v) ==> v < 16 && hex_char(v) == c,
        r is None ==> !is_hex_char(c),
{
    match c {
        '0' => Some(0u8),
        '1' => Some(1u8),
        '2' => Some(2u8),
        '3' => Some(3u8),
        '4' => Some(4u8),
        '5' => Some(5u8),
        '6' => Some(6u8),
        '7' => Some(7u8),
        '8' => Some(8u8),
        '9' => Some(9u8),
        'a' => Some(10u8),
        'b' => Some(11u8),
        'c' => Some(12u8),
        'd' => Some(13u8),
        'e' => Some(14u8),
        'f' => Some(15u8),
        _ => None,
    }
}

impl Digest {
    /// The digest of `data`.
    pub fn of(data: &[u8]) -> (r: Digest)
        ensures
            r@ == sha256_of(data@),
            r@.len() == 32,
    {
        Digest { bytes: sha256(data) }
    }

    /// The canonical text form, `sha256:` followed by the bytes in lowercase hex.
    pub fn to_string(&self) -> (r: String)
        ensures
            r@ == canonical(self@),
    {
        let mut s = String::new();
        proof { reveal_strlit("sha256:"); }
        s.append("sha256:");
        let mut i: usize = 0;
        while i < self.bytes.len()
            invariant
                i <= self@.len(),
                s@ == algorithm_prefix() + hex_of(self@.subrange(0, i as int)),
            decreases self@.len() - i,
        {
            let x = self.bytes[i];
            proof {
                lemma_hex_push(self@.subrange(0, i as int), x);
                assert(self@.subrange(0, i as int).push(x) =~= self@.subrange(0, i + 1));
            }
            s.append(hex_str(x / 16));
            s.append(hex_str(x % 16));
            i = i + 1;
        }
        assert(self@.subrange(0, self@.len() as int) =~= self@);
        s
    }

    /// Reads a digest from its canonical text form; `None` when `s` is not one.
    pub fn parse(s: &str) -> (r: Option<Digest>)
        ensures
            r is Some <==> is_digest_string(s@),
            r matches Some(d) ==> canonical(d@) == s@ && d@.len() == 32,
    {
        let n = s.unicode_len();
        if n != 71 {
            return None;
        }
        if !(s.get_char(0) == 's' && s.get_char(1) == 'h' && s.get_char(2) == 'a'
            && s.get_char(3) == '2' && s.get_char(4) == '5' && s.get_char(5) == '6'
            && s.get_char(6) == ':') {
            assert(s@.subrange(0, 7) != algorithm_prefix()) by {
                if s@.subrange(0, 7) == algorithm_prefix() {
                    assert(s@[0] == s@.subrange(0, 7)[0]);
                    assert(s@[1] == s@.subrange(0, 7)[1]);
                    assert(s@[2] == s@.subrange(0, 7)[2]);
                    assert(s@[3] == s@.subrange(0, 7)[3]);
                    assert(s@[4] == s@.subrange(0, 7)[4]);
                    assert(s@[5] == s@.subrange(0, 7)[5]);
                    assert(s@[6] == s@.subrange(0, 7)[6]);
                }
            }
            return None;
        }
        assert(s@.subrange(0, 7) =~= algorithm_prefix());
        let mut bytes: Vec<u8> = Vec::new();
        let mut i: usize = 0;
        while i < 32
            invariant
                s@.len() == 71,
                s@.subrange(0, 7) == algorithm_prefix(),
                i <= 32,
                bytes@.len() == i,
                hex_of(bytes@) == s@.subrange(7, 7 + 2 * i),
                forall|j: int| 7 <= j < 7 + 2 * i ==> is_hex_char(#[trigger] s@[j]),
            decreases 32 - i,
        {
            let hi = hex_value(s.get_char(7 + 2 * i));
            let lo = hex_value(s.get_char(8 + 2 * i));
            match (hi, lo) {
                (Some(h), Some(l)) => {
                    let x: u8 = h * 16 + l;
                    assert(x / 16 == h && x % 16 == l) by (nonlinear_arith)
                        requires x == h * 16 + l, h < 16, l < 16;
                    proof {
                        lemma_hex_push(bytes@, x);
                        assert(s@.subrange(7, 7 + 2 * (i + 1)) =~= s@.subrange(7, 7 + 2 * i)
                            + seq![s@[7 + 2 * i], s@[8 + 2 * i]]);
                    }
                    bytes.push(x);
                    i = i + 1;
                },
                _ => {
                    return None;
                },
            }
        }
        assert(s@ =~= algorithm_prefix() + hex_of(bytes@));
        Some(Digest { bytes })
    }

    /// Whether `s` is a well-formed digest string.
    pub fn is_digest(s: &str) -> (r: bool)
        ensures
            r == is_digest_string(s@),
    {
        Digest::parse(s).is_some()
    }
}

/// Two digest values with the same text form are equal.
pub proof fn lemma_canonical_unique(d: Seq<u8>)
    ensures
        forall|e: Seq<u8>| #[trigger] canonical(e) == canonical(d) ==> e == d,
{
    assert forall|e: Seq<u8>| #[trigger] canonical(e) == canonical(d) implies e == d by {
        assert(hex_of(e) =~= canonical(e).subrange(7, canonical(e).len() as int));
        assert(hex_of(d) =~= canonical(d).subrange(7, canonical(d).len() as int));
        lemma_hex_injective(e, d);
    }
}

proof fn lemma_hex_digit_injective(a: u8, b: u8)
    requires
        a < 16,
        b < 16,
        hex_char(a) == hex_char(b),
    ensures
        a == b,
{
}

proof fn lemma_hex_injective(a: Seq<u8>, b: Seq<u8>)
    requires
        hex_of(a) == hex_of(b),
    ensures
        a == b,
    decreases a.len(),
{
    lemma_hex_len(a);
    lemma_hex_len(b);
    if a.len() > 0 {
        let ha = hex_of(a);
        let n = ha.len();
        let pa = hex_of(a.drop_last());
        let pb = hex_of(b.drop_last());
        assert(pa =~= ha.subrange(0, n - 2));
        assert(pb =~= ha.subrange(0, n - 2));
        lemma_hex_injective(a.drop_last(), b.drop_last());
        let x = a.last();
        let y = b.last();
        assert(ha[n - 2] == hex_char(x / 16));
        assert(ha[n - 1] == hex_char(x % 16));
        lemma_hex_digit_injective(x / 16, y / 16);
        lemma_hex_digit_injective(x % 16, y % 16);
        assert(x == y) by (nonlinear_arith)
            requires x / 16 == y / 16, x % 16 == y % 16;
        assert(a =~= a.drop_last().push(x));
        assert(b =~= b.drop_last().push(y));
    }
}

} // verus!
