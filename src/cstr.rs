use vstd::prelude::*;
use vstd::slice::slice_subrange;

verus! {

/// A borrowed byte string that ends with a single zero byte.
///
/// The terminator is part of the borrowed slice but not of the logical
/// content: `self@` is everything before it.
#[derive(Clone, Copy)]
pub struct CStr<'a> {
    bytes: &'a [u8],
}

/// True when `s` is non-empty and its last byte is zero.
pub open spec fn is_terminated(s: Seq<u8>) -> bool {
    s.len() > 0 && s.last() == 0u8
}

/// True when `b` is one of the ASCII digits `0` to `9`.
pub open spec fn is_digit(b: u8) -> bool {
    0x30u8 <= b && b <= 0x39u8
}

impl<'a> View for CStr<'a> {
    type V = Seq<u8>;

    closed spec fn view(&self) -> Seq<u8> {
        self.bytes@.drop_last()
    }
}

impl<'a> CStr<'a> {
    /// The whole borrowed slice, terminator included.
    pub closed spec fn raw(self) -> Seq<u8> {
        self.bytes@
    }

    #[verifier::type_invariant]
    spec fn inv(self) -> bool {
        is_terminated(self.bytes@)
    }

    /// Wraps a slice whose last byte is the terminator.
    pub fn from_bytes(bytes: &'a [u8]) -> (r: CStr<'a>)
        requires
            is_terminated(bytes@),
        ensures
            r.raw() == bytes@,
            r@ == bytes@.drop_last(),
    {
        CStr { bytes }
    }

    /// The content without the terminator.
    pub fn as_bytes(&self) -> (r: &'a [u8])
        ensures
            r@ == self@,
    {
        proof {
            use_type_invariant(self);
        }
        slice_subrange(self.bytes, 0, self.bytes.len() - 1)
    }

    /// The byte at `i`, if `i` lies before the terminator.
    pub fn get(&self, i: usize) -> (r: Option<&'a u8>)
        ensures
            r.is_some() == (i < self@.len()),
            r.is_some() ==> *r.unwrap() == self@[i as int],
    {
        proof {
            use_type_invariant(self);
        }
        if i < self.bytes.len() - 1 {
            Some(&self.bytes[i])
        } else {
            None
        }
    }

    /// The whole slice, terminator included, as it is handed to the kernel.
    pub fn as_ptr(&self) -> (r: &'a [u8])
        ensures
            r@ == self.raw(),
            is_terminated(r@),
            r@.drop_last() == self@,
    {
        proof {
            use_type_invariant(self);
        }
        self.bytes
    }

    /// The length of the content, terminator excluded.
    pub fn len(&self) -> (r: usize)
        ensures
            r == self@.len(),
            r + 1 == self.raw().len(),
    {
        proof {
            use_type_invariant(self);
        }
        self.bytes.len() - 1
    }

    /// Compares with `other`: the whole slice when `other` carries its own
    /// terminator, the content otherwise.
    pub fn eq_bytes(&self, other: &[u8]) -> (r: bool)
        ensures
            r == eq_bytes_spec(*self, other@),
    {
        proof {
            use_type_invariant(self);
        }
        let n = other.len();
        let terminated = n > 0 && other[n - 1] == 0;
        let mine: &[u8] = if terminated {
            self.bytes
        } else {
            slice_subrange(self.bytes, 0, self.bytes.len() - 1)
        };
        bytes_equal(mine, other)
    }
}

/// The comparison `eq_bytes` makes.
pub open spec fn eq_bytes_spec(s: CStr, other: Seq<u8>) -> bool {
    if is_terminated(other) {
        s.raw() == other
    } else {
        s@ == other
    }
}

impl<'a, 'b> PartialEq<&'b [u8]> for CStr<'a> {
    fn eq(&self, other: &&'b [u8]) -> (r: bool) {
        self.eq_bytes(*other)
    }
}

impl<'a, 'b> vstd::std_specs::cmp::PartialEqSpecImpl<&'b [u8]> for CStr<'a> {
    open spec fn obeys_eq_spec() -> bool {
        true
    }

    open spec fn eq_spec(&self, other: &&'b [u8]) -> bool {
        eq_bytes_spec(*self, other@)
    }
}

/// Byte-wise equality of two slices.
pub fn bytes_equal(a: &[u8], b: &[u8]) -> (r: bool)
    ensures
        r == (a@ == b@),
{
    if a.len() != b.len() {
        return false;
    }
    let mut i: usize = 0;
    while i < a.len()
        invariant
            a@.len() == b@.len(),
            i <= a@.len(),
            forall|k: int| 0 <= k < i ==> a@[k] == b@[k],
        decreases a@.len() - i,
    {
        if a[i] != b[i] {
            return false;
        }
        i = i + 1;
    }
    assert(a@ =~= b@);
    true
}

/// True when `s` holds an ASCII digit at `index`.
pub fn digit_at(s: &[u8], index: usize) -> (r: bool)
    ensures
        r == (index < s@.len() && is_digit(s@[index as int])),
{
    index < s.len() && 0x30u8 <= s[index] && s[index] <= 0x39u8
}

} // verus!
