use vstd::prelude::*;
use vstd::string::*;

verus! {

/// The lowercase hexadecimal digits, by value.
pub open spec fn hex_digits() -> Seq<char> {
    seq!['0', '1', '2', '3', '4', '5', '6', '7', '8', '9', 'a', 'b', 'c', 'd', 'e', 'f']
}

/// The two digits of one byte, high nibble first.
pub open spec fn byte_hex(b: u8) -> Seq<char> {
    seq![hex_digits()[(b / 16) as int], hex_digits()[(b % 16) as int]]
}

/// The hexadecimal rendering of a byte string: two digits per byte, no separators.
pub open spec fn hex_of(b: Seq<u8>) -> Seq<char>
    decreases b.len(),
{
    if b.len() == 0 {
        Seq::empty()
    } else {
        hex_of(b.drop_last()) + byte_hex(b.last())
    }
}

/// A lowercase hexadecimal digit.
pub open spec fn is_lower_hex(c: char) -> bool {
    ('0' <= c && c <= '9') || ('a' <= c && c <= 'f')
}

/// A 128-bit identifier, such as that of a machine or of a boot session.
#[derive(Clone, Copy, Debug)]
pub struct Id128 {
    bytes: [u8; 16],
}

impl Id128 {
    /// The sixteen bytes of the identifier.
    pub closed spec fn spec_bytes(self) -> Seq<u8> {
        self.bytes@
    }

    pub fn from_bytes(bytes: [u8; 16]) -> (r: Id128)
        ensures
            r.spec_bytes() == bytes@,
    {
        Id128 { bytes }
    }

    pub fn bytes(&self) -> (r: [u8; 16])
        ensures
            r@ == self.spec_bytes(),
    {
        self.bytes
    }

    /// The identifier as 32 lowercase hexadecimal digits.
    pub fn to_string(&self) -> (r: String)
        ensures
            r@ == hex_of(self.spec_bytes()),
    {
        let mut out = String::new();
        let mut i: usize = 0;
        while i < 16
            invariant
                i <= 16,
                self.bytes@.len() == 16,
                out@ == hex_of(self.bytes@.subrange(0, i as int)),
            decreases 16 - i,
        {
            let b = self.bytes[i];
            out.append(hex_digit(b / 16));
            out.append(hex_digit(b % 16));
            proof {
                let s = self.bytes@.subrange(0, i as int + 1);
                assert(s.drop_last() =~= self.bytes@.subrange(0, i as int));
                assert(s.last() == b);
            }
            i = i + 1;
        }
        proof {
            assert(self.bytes@.subrange(0, 16) =~= self.bytes@);
        }
        out
    }
}

/// The digit of a value under sixteen.
fn hex_digit(d: u8) -> (r: &'static str)
    requires
        d < 16,
    ensures
        r@ == seq![hex_digits()[d as int]],
{
    let digits: &'static str = "0123456789abcdef";
    proof {
        reveal_strlit("0123456789abcdef");
    }
    let r = digits.substring_char(d as usize, d as usize + 1);
    proof {
        assert(digits@ =~= hex_digits());
        assert(r@ =~= seq![hex_digits()[d as int]]);
    }
    r
}

/// The rendering has two digits per byte.
pub proof fn lemma_hex_len(b: Seq<u8>)
    ensures
        hex_of(b).len() == 2 * b.len(),
    decreases b.len(),
{
    if b.len() > 0 {
        lemma_hex_len(b.drop_last());
    }
}

/// Every character of the rendering is a lowercase hexadecimal digit.
pub proof fn lemma_hex_digits_only(b: Seq<u8>)
    ensures
        forall|i: int| 0 <= i < hex_of(b).len() ==> is_lower_hex(#[trigger] hex_of(b)[i]),
    decreases b.len(),
{
    if b.len() > 0 {
        lemma_hex_digits_only(b.drop_last());
        lemma_hex_len(b.drop_last());
        let x = b.last();
        assert(forall|k: int| 0 <= k < 16 ==> is_lower_hex(#[trigger] hex_digits()[k]));
        assert(is_lower_hex(byte_hex(x)[0]) && is_lower_hex(byte_hex(x)[1]));
        let h = hex_of(b);
        assert forall|i: int| 0 <= i < h.len() implies is_lower_hex(#[trigger] h[i]) by {
            if i < hex_of(b.drop_last()).len() {
                assert(h[i] == hex_of(b.drop_last())[i]);
            } else {
                assert(h[i] == byte_hex(x)[i - hex_of(b.drop_last()).len()]);
            }
        }
    }
}

/// Whatever its sixteen bytes, an identifier renders as exactly 32 lowercase
/// hexadecimal digits, with no separator.
pub proof fn lemma_to_string_shape(id: Id128)
    ensures
        hex_of(id.spec_bytes()).len() == 32,
        forall|i: int|
            0 <= i < 32 ==> is_lower_hex(#[trigger] hex_of(id.spec_bytes())[i]),
{
    lemma_hex_len(id.spec_bytes());
    lemma_hex_digits_only(id.spec_bytes());
}

} // verus!
