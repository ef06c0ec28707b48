use vstd::prelude::*;

verus! {

#[derive(Debug)]
/// Dual-mode storage for a string: either a reference to externally-owned
/// data (typically a constant embedded in the binary) or an owned copy.
/// Both modes expose the same read-only view, a sequence of characters.
pub enum Cow<'a> {
    Borrowed(&'a str),
    Owned(String),
}

impl<'a> View for Cow<'a> {
    type V = Seq<char>;

    open spec fn view(&self) -> Seq<char> {
        match self {
            Cow::Borrowed(s) => s@,
            Cow::Owned(s) => s@,
        }
    }
}

/// Relies on `str`'s `PartialEq`: two string slices compare equal exactly
/// when their character sequences are equal.
#[verifier::external_body]
pub(crate) fn str_eq(a: &str, b: &str) -> (r: bool)
    ensures
        r == (a@ == b@),
{
    a == b
}

impl<'a> Cow<'a> {
    /// Read-only access to the held string, whichever mode it is in.
    pub fn as_str(&self) -> (r: &str)
        ensures
            r@ == self@,
    {
        match self {
            Cow::Borrowed(s) => s,
            Cow::Owned(s) => s.as_str(),
        }
    }
}

impl<'a> Clone for Cow<'a> {
    /// Cloning a borrowed value copies the reference; cloning an owned
    /// value copies the data. Either way the value is preserved.
    fn clone(&self) -> (r: Self)
        ensures
            r@ == self@,
            self is Borrowed ==> r == *self,
            self is Owned ==> r is Owned,
    {
        match self {
            Cow::Borrowed(s) => Cow::Borrowed(s),
            Cow::Owned(s) => Cow::Owned(s.clone()),
        }
    }
}

impl<'a> PartialEq for Cow<'a> {
    /// Equality is by value, not by mode: a borrowed string equals an
    /// owned copy of the same characters.
    fn eq(&self, other: &Self) -> (r: bool)
        ensures
            r == (self@ == other@),
    {
        str_eq(self.as_str(), other.as_str())
    }
}

impl<'a> vstd::std_specs::cmp::PartialEqSpecImpl for Cow<'a> {
    open spec fn obeys_eq_spec() -> bool {
        true
    }

    open spec fn eq_spec(&self, other: &Self) -> bool {
        self@ == other@
    }
}

#[derive(Debug)]
/// Dual-mode storage for a byte sequence, the counterpart of [`Cow`] for
/// file contents.
pub enum CowBytes<'a> {
    Borrowed(&'a [u8]),
    Owned(Vec<u8>),
}

impl<'a> View for CowBytes<'a> {
    type V = Seq<u8>;

    open spec fn view(&self) -> Seq<u8> {
        match self {
            CowBytes::Borrowed(s) => s@,
            CowBytes::Owned(v) => v@,
        }
    }
}

impl<'a> CowBytes<'a> {
    /// Read-only access to the held bytes, whichever mode they are in.
    pub fn as_bytes(&self) -> (r: &[u8])
        ensures
            r@ == self@,
    {
        match self {
            CowBytes::Borrowed(s) => s,
            CowBytes::Owned(v) => v.as_slice(),
        }
    }

    /// An owned copy of the held bytes.
    pub fn to_vec(&self) -> (r: Vec<u8>)
        ensures
            r@ == self@,
    {
        let s = self.as_bytes();
        let mut out: Vec<u8> = Vec::new();
        let mut i: usize = 0;
        while i < s.len()
            invariant
                i <= s.len(),
                s@ == self@,
                out@ == s@.take(i as int),
            decreases s.len() - i,
        {
            out.push(s[i]);
            i = i + 1;
            proof {
                assert(out@ =~= s@.take(i as int));
            }
        }
        proof {
            assert(out@ =~= self@);
        }
        out
    }
}

impl<'a> Clone for CowBytes<'a> {
    /// Cloning a borrowed value copies the reference; cloning an owned
    /// value copies the data. Either way the value is preserved.
    fn clone(&self) -> (r: Self)
        ensures
            r@ == self@,
            self is Borrowed ==> r == *self,
            self is Owned ==> r is Owned,
    {
        match self {
            CowBytes::Borrowed(s) => CowBytes::Borrowed(s),
            CowBytes::Owned(_) => CowBytes::Owned(self.to_vec()),
        }
    }
}

impl<'a> PartialEq for CowBytes<'a> {
    /// Equality is by value, not by mode.
    fn eq(&self, other: &Self) -> (r: bool)
        ensures
            r == (self@ == other@),
    {
        let a = self.as_bytes();
        let b = other.as_bytes();
        if a.len() != b.len() {
            proof {
                assert(a@ != b@);
            }
            return false;
        }
        let mut i: usize = 0;
        while i < a.len()
            invariant
                i <= a.len(),
                a@ == self@,
                b@ == other@,
                a@.len() == b@.len(),
                forall|j: int| 0 <= j < i ==> a@[j] == b@[j],
            decreases a.len() - i,
        {
            if a[i] != b[i] {
                proof {
                    assert(a@ != b@);
                }
                return false;
            }
            i = i + 1;
        }
        proof {
            assert(a@ =~= b@);
        }
        true
    }
}

impl<'a> vstd::std_specs::cmp::PartialEqSpecImpl for CowBytes<'a> {
    open spec fn obeys_eq_spec() -> bool {
        true
    }

    open spec fn eq_spec(&self, other: &Self) -> bool {
        self@ == other@
    }
}

} // verus!
