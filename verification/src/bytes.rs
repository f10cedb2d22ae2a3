//! A byte string that either borrows from the parsed source or owns its storage.

use crate::errors::SetBytesError;
use crate::sealed::Sealed;
use std::borrow::Cow;
use vstd::prelude::*;
use vstd::std_specs::cmp::PartialEqSpecImpl;
use vstd::std_specs::convert::FromSpecImpl;
use vstd::std_specs::convert::TryFromSpecImpl;
use vstd::utf8::decode_utf8;
use vstd::utf8::encode_utf8;
use vstd::utf8::valid_utf8;

verus! {

/// The largest number of bytes a [`Bytes`] value may hold.
pub const MAX_LEN: usize = 0xffff_ffff;

/// The text that lossy UTF-8 decoding gives for `bytes`.
pub uninterp spec fn utf8_lossy(bytes: Seq<u8>) -> Seq<char>;

/// Decodes `bytes` with `String::from_utf8_lossy`.
///
/// The result is named by [`utf8_lossy`]; for valid UTF-8 it is the decoded text itself,
/// as the standard library documents.
#[verifier::external_body]
pub(crate) fn from_utf8_lossy<'a>(bytes: &'a [u8]) -> (r: Cow<'a, str>)
    ensures
        r@ == utf8_lossy(bytes@),
        valid_utf8(bytes@) ==> r@ == decode_utf8(bytes@),
{
    String::from_utf8_lossy(bytes)
}

/// Checks `bytes` with `core::str::from_utf8`.
///
/// The call succeeds exactly on valid UTF-8, and the string it gives then encodes to `bytes`.
#[verifier::external_body]
pub(crate) fn from_utf8_checked<'a>(bytes: &'a [u8]) -> (r: Option<&'a str>)
    ensures
        r is Some <==> valid_utf8(bytes@),
        r is Some ==> encode_utf8(r.unwrap()@) == bytes@,
{
    match core::str::from_utf8(bytes) {
        Ok(s) => Some(s),
        Err(_) => None,
    }
}

/// Moves the bytes out of a `String` with `String::into_bytes`.
#[verifier::external_body]
pub(crate) fn string_into_bytes(s: String) -> (r: Vec<u8>)
    ensures
        r@ == encode_utf8(s@),
{
    s.into_bytes()
}

/// Moves the bytes out of a boxed slice with `<[u8]>::into_vec`.
#[verifier::external_body]
pub(crate) fn boxed_slice_into_vec(b: Box<[u8]>) -> (r: Vec<u8>)
    ensures
        r@ == b@,
{
    b.into_vec()
}

/// Reads the address of the first byte of `bytes` with `<[u8]>::as_ptr`.
#[verifier::external_body]
pub(crate) fn slice_address(bytes: &[u8]) -> usize {
    bytes.as_ptr() as usize
}

/// Feeds `bytes` to `state` with `<[u8] as Hash>::hash`; nothing is claimed of the hasher.
#[verifier::external_body]
pub(crate) fn hash_slice<H: core::hash::Hasher>(bytes: &[u8], state: &mut H) {
    core::hash::Hash::hash(bytes, state)
}

/// Compares two byte slices for equal content.
pub fn slice_eq(a: &[u8], b: &[u8]) -> (r: bool)
    ensures
        r == (a@ == b@),
{
    if a.len() != b.len() {
        return false;
    }
    let mut i: usize = 0;
    while i < a.len()
        invariant
            a.len() == b.len(),
            i <= a.len(),
            forall|j: int| 0 <= j < i ==> a@[j] == b@[j],
        decreases a.len() - i,
    {
        if a[i] != b[i] {
            return false;
        }
        i += 1;
    }
    assert(a@ =~= b@);
    true
}

/// How `a` stands to `b` in the order of the dictionary, from the `i`-th byte on: -1 where it
/// comes first, 1 where it comes last, 0 where the two are the same.
pub open spec fn spec_compare_from(a: Seq<u8>, b: Seq<u8>, i: int) -> int
    decreases a.len() - i,
{
    if i < 0 || i >= a.len() {
        if i < b.len() {
            -1
        } else {
            0
        }
    } else if i >= b.len() {
        1
    } else if a[i] < b[i] {
        -1
    } else if a[i] > b[i] {
        1
    } else {
        spec_compare_from(a, b, i + 1)
    }
}

/// How `a` stands to `b` in the order of the dictionary.
pub open spec fn spec_compare(a: Seq<u8>, b: Seq<u8>) -> int {
    spec_compare_from(a, b, 0)
}

/// Compares two byte slices in the order of the dictionary.
pub fn compare_bytes(a: &[u8], b: &[u8]) -> (r: i8)
    ensures
        r == spec_compare(a@, b@),
{
    let mut i: usize = 0;
    while i < a.len() && i < b.len()
        invariant
            i <= a.len(),
            i <= b.len(),
            spec_compare(a@, b@) == spec_compare_from(a@, b@, i as int),
        decreases a.len() - i,
    {
        if a[i] < b[i] {
            return -1;
        }
        if a[i] > b[i] {
            return 1;
        }
        i += 1;
    }
    if i < b.len() {
        -1
    } else if i < a.len() {
        1
    } else {
        0
    }
}

/// The first [`MAX_LEN`] bytes of `s`, which is all of `s` unless it is longer than that.
pub open spec fn spec_clamp(s: Seq<u8>) -> Seq<u8> {
    if s.len() <= MAX_LEN {
        s
    } else {
        s.subrange(0, MAX_LEN as int)
    }
}

/// The first [`MAX_LEN`] bytes of `s`.
fn clamp<'a>(s: &'a [u8]) -> (r: &'a [u8])
    ensures
        r@ == spec_clamp(s@),
{
    if s.len() <= MAX_LEN {
        s
    } else {
        vstd::slice::slice_subrange(s, 0, MAX_LEN)
    }
}

#[derive(Debug)]
enum BytesInner<'a> {
    /// Bytes that live in a buffer owned by someone else.
    Borrowed(&'a [u8]),
    /// Bytes in a private allocation.
    Owned(Vec<u8>),
}

/// A byte string that is either borrowed for `'a` or privately owned.
///
/// Equality looks at the bytes only, never at the representation.
#[derive(Debug)]
pub struct Bytes<'a> {
    data: BytesInner<'a>,
}

impl<'a> View for Bytes<'a> {
    type V = Seq<u8>;

    closed spec fn view(&self) -> Seq<u8> {
        match self.data {
            BytesInner::Borrowed(b) => spec_clamp(b@),
            BytesInner::Owned(v) => v@,
        }
    }
}

/// Types whose content can become the owned storage of a [`Bytes`].
///
/// This trait is sealed and cannot be implemented outside of this crate.
pub trait IntoOwnedBytes: Sized + Sealed {
    /// The bytes that `into_bytes` yields.
    spec fn owned_bytes(self) -> Seq<u8>;

    /// Converts the value into an owned byte buffer.
    fn into_bytes(self) -> (r: Vec<u8>)
        ensures
            r@ == self.owned_bytes(),
    ;
}

impl IntoOwnedBytes for Vec<u8> {
    open spec fn owned_bytes(self) -> Seq<u8> {
        self@
    }

    fn into_bytes(self) -> (r: Vec<u8>) {
        self
    }
}

impl IntoOwnedBytes for Box<[u8]> {
    open spec fn owned_bytes(self) -> Seq<u8> {
        self@
    }

    fn into_bytes(self) -> (r: Vec<u8>) {
        boxed_slice_into_vec(self)
    }
}

impl IntoOwnedBytes for &[u8] {
    open spec fn owned_bytes(self) -> Seq<u8> {
        self@
    }

    fn into_bytes(self) -> (r: Vec<u8>) {
        vstd::slice::slice_to_vec(self)
    }
}

impl IntoOwnedBytes for &str {
    open spec fn owned_bytes(self) -> Seq<u8> {
        encode_utf8(self@)
    }

    fn into_bytes(self) -> (r: Vec<u8>) {
        vstd::slice::slice_to_vec(self.as_bytes())
    }
}

impl IntoOwnedBytes for String {
    open spec fn owned_bytes(self) -> Seq<u8> {
        encode_utf8(self@)
    }

    fn into_bytes(self) -> (r: Vec<u8>) {
        string_into_bytes(self)
    }
}

impl<'a> Bytes<'a> {
    #[verifier::type_invariant]
    closed spec fn len_fits(&self) -> bool {
        self.data matches BytesInner::Owned(v) ==> v@.len() <= MAX_LEN
    }

    /// Whether the value still refers to bytes it does not own.
    pub closed spec fn is_borrowed(&self) -> bool {
        self.data is Borrowed
    }

    /// Whether the value is as `set` leaves it when it is given `data`: owned, and holding
    /// `data`.
    pub open spec fn is_set_to(&self, data: Seq<u8>) -> bool {
        self@ == data && !self.is_borrowed()
    }

    /// The private buffer of an owned value.
    pub closed spec fn spec_owned(&self) -> Option<Vec<u8>> {
        match self.data {
            BytesInner::Borrowed(_) => None,
            BytesInner::Owned(v) => Some(v),
        }
    }

    /// The borrowed value that `Bytes::from` builds from `s`.
    pub closed spec fn spec_from_slice(s: &'a [u8]) -> Self {
        Bytes { data: BytesInner::Borrowed(s) }
    }

    /// Creates an empty byte string.
    pub fn new() -> (r: Self)
        ensures
            r@ == Seq::<u8>::empty(),
            r.is_borrowed(),
    {
        let empty: &'static [u8] = &[];
        Bytes { data: BytesInner::Borrowed(empty) }
    }

    /// The length in bytes, which never exceeds [`MAX_LEN`].
    pub fn len(&self) -> (r: usize)
        ensures
            r == self@.len(),
            r <= MAX_LEN,
    {
        proof {
            use_type_invariant(self);
        }
        self.as_bytes().len()
    }

    /// Decodes the content as UTF-8, replacing invalid sequences.
    pub fn as_utf8_str(&self) -> (r: Cow<'_, str>)
        ensures
            r@ == utf8_lossy(self@),
            valid_utf8(self@) ==> r@ == decode_utf8(self@),
    {
        from_utf8_lossy(self.as_bytes())
    }

    /// Views the content as a string slice if it is valid UTF-8.
    pub fn try_as_utf8_str(&self) -> (r: Option<&str>)
        ensures
            r is Some <==> valid_utf8(self@),
            r is Some ==> encode_utf8(r.unwrap()@) == self@,
    {
        from_utf8_checked(self.as_bytes())
    }

    /// The content as a byte slice.
    pub fn as_bytes(&self) -> (r: &[u8])
        ensures
            r@ == self@,
            r@.len() <= MAX_LEN,
    {
        proof {
            use_type_invariant(self);
        }
        match &self.data {
            BytesInner::Borrowed(b) => clamp(b),
            BytesInner::Owned(v) => v.as_slice(),
        }
    }

    /// The content with the source lifetime, available only while the value is borrowed.
    pub fn as_bytes_borrowed(&self) -> (r: Option<&'a [u8]>)
        ensures
            r is Some <==> self.is_borrowed(),
            r is Some ==> r.unwrap()@ == self@,
    {
        match &self.data {
            BytesInner::Borrowed(b) => Some(clamp(b)),
            BytesInner::Owned(_) => None,
        }
    }

    /// The bytes from `from` up to, not including, `to`: borrowed if `self` is, a copy of its
    /// own otherwise.
    pub fn slice(&self, from: usize, to: usize) -> (r: Bytes<'a>)
        requires
            from <= to <= self@.len(),
        ensures
            r@ == self@.subrange(from as int, to as int),
            r.is_borrowed() == self.is_borrowed(),
    {
        proof {
            use_type_invariant(self);
        }
        match &self.data {
            BytesInner::Borrowed(b) => Bytes {
                data: BytesInner::Borrowed(vstd::slice::slice_subrange(clamp(b), from, to)),
            },
            BytesInner::Owned(v) => Bytes {
                data: BytesInner::Owned(
                    vstd::slice::slice_to_vec(vstd::slice::slice_subrange(v.as_slice(), from, to)),
                ),
            },
        }
    }

    /// The address of the first byte of the content.
    pub fn as_ptr(&self) -> usize {
        slice_address(self.as_bytes())
    }

    /// Replaces the content with `data` and hands back the buffer that was owned before, if any.
    ///
    /// Fails, leaving the value as it was, when `data` is longer than [`MAX_LEN`] bytes.
    pub fn set<B: IntoOwnedBytes>(&mut self, data: B) -> (r: Result<Option<Vec<u8>>, SetBytesError>)
        ensures
            data.owned_bytes().len() > MAX_LEN ==> r is Err && *final(self) == *old(self),
            data.owned_bytes().len() <= MAX_LEN ==> {
                &&& r == Ok::<Option<Vec<u8>>, SetBytesError>(old(self).spec_owned())
                &&& final(self).is_set_to(data.owned_bytes())
            },
    {
        let data = data.into_bytes();
        if data.len() > MAX_LEN {
            return Err(SetBytesError::LengthOverflow);
        }
        Ok(self.set_unchecked(data))
    }

    /// Replaces the content with `data` without checking its length.
    pub fn set_unchecked<B: IntoOwnedBytes>(&mut self, data: B) -> (r: Option<Vec<u8>>)
        requires
            data.owned_bytes().len() <= MAX_LEN,
        ensures
            r == old(self).spec_owned(),
            final(self)@ == data.owned_bytes(),
            !final(self).is_borrowed(),
    {
        let data = data.into_bytes();
        let mut fresh = Bytes { data: BytesInner::Owned(data) };
        core::mem::swap(self, &mut fresh);
        match fresh.data {
            BytesInner::Borrowed(_) => None,
            BytesInner::Owned(v) => Some(v),
        }
    }
}

impl<'a> Default for Bytes<'a> {
    /// The empty byte string.
    fn default() -> (r: Self)
        ensures
            r@ == Seq::<u8>::empty(),
            r.is_borrowed(),
    {
        Bytes::new()
    }
}

/// The content of an optional byte string.
pub open spec fn opt_view(b: Option<Bytes<'_>>) -> Option<Seq<u8>> {
    match b {
        Some(b) => Some(b@),
        None => None,
    }
}

impl<'a> Clone for Bytes<'a> {
    /// A borrowed value is copied shallowly; an owned value gets a buffer of its own.
    fn clone(&self) -> (r: Self)
        ensures
            r@ == self@,
            r.is_borrowed() == self.is_borrowed(),
    {
        proof {
            use_type_invariant(self);
        }
        match &self.data {
            BytesInner::Borrowed(b) => Bytes { data: BytesInner::Borrowed(*b) },
            BytesInner::Owned(v) => Bytes { data: BytesInner::Owned(v.clone()) },
        }
    }
}

/// A clone holds the bytes of the original, in the same kind of storage.
///
/// The clone of an owned value owns a buffer of its own, so nothing that is done to the clone
/// reaches the original: `set` on the clone, whose effect on the clone is the second part of
/// this statement, takes the clone alone.
pub proof fn lemma_clone_keeps_bytes<'a>(original: Bytes<'a>, copy: Bytes<'a>, data: Seq<u8>)
    requires
        cloned(original, copy),
    ensures
        copy@ == original@,
        copy.is_borrowed() == original.is_borrowed(),
        forall|changed: Bytes<'a>| #[trigger] changed.is_set_to(data) ==> changed@ == data,
{
}

impl<'a> PartialEq for Bytes<'a> {
    fn eq(&self, other: &Self) -> (r: bool) {
        slice_eq(self.as_bytes(), other.as_bytes())
    }
}

impl<'a> PartialEqSpecImpl for Bytes<'a> {
    open spec fn obeys_eq_spec() -> bool {
        true
    }

    open spec fn eq_spec(&self, other: &Self) -> bool {
        self@ == other@
    }
}

impl<'a> Eq for Bytes<'a> {}

impl<'a> PartialEq<str> for Bytes<'a> {
    fn eq(&self, other: &str) -> (r: bool) {
        slice_eq(self.as_bytes(), other.as_bytes())
    }
}

impl<'a> PartialEqSpecImpl<str> for Bytes<'a> {
    open spec fn obeys_eq_spec() -> bool {
        true
    }

    open spec fn eq_spec(&self, other: &str) -> bool {
        self@ == encode_utf8(other@)
    }
}

impl<'a> PartialEq<[u8]> for Bytes<'a> {
    fn eq(&self, other: &[u8]) -> (r: bool) {
        slice_eq(self.as_bytes(), other)
    }
}

impl<'a> PartialEqSpecImpl<[u8]> for Bytes<'a> {
    open spec fn obeys_eq_spec() -> bool {
        true
    }

    open spec fn eq_spec(&self, other: &[u8]) -> bool {
        self@ == other@
    }
}

impl<'a> From<&'a [u8]> for Bytes<'a> {
    /// Borrows `s`; a slice longer than [`MAX_LEN`] is cut at that length.
    fn from(s: &'a [u8]) -> (r: Self)
        ensures
            r@ == spec_clamp(s@),
            r.is_borrowed(),
    {
        Bytes { data: BytesInner::Borrowed(s) }
    }
}

impl<'a> FromSpecImpl<&'a [u8]> for Bytes<'a> {
    open spec fn obeys_from_spec() -> bool {
        true
    }

    open spec fn from_spec(s: &'a [u8]) -> Self {
        Bytes::spec_from_slice(s)
    }
}

impl<'a> From<&'a str> for Bytes<'a> {
    /// Borrows the UTF-8 encoding of `s`.
    fn from(s: &'a str) -> (r: Self)
        ensures
            r@ == spec_clamp(encode_utf8(s@)),
            r.is_borrowed(),
    {
        Bytes { data: BytesInner::Borrowed(s.as_bytes()) }
    }
}

impl<'a> FromSpecImpl<&'a str> for Bytes<'a> {
    /// The conversion is specified by the `ensures` of `from`, over views.
    open spec fn obeys_from_spec() -> bool {
        false
    }

    open spec fn from_spec(s: &'a str) -> Self {
        Bytes::spec_from_slice(arbitrary())
    }
}

impl<'a> TryFrom<String> for Bytes<'a> {
    type Error = SetBytesError;

    /// Takes ownership of the bytes of `s`, unless they are more than [`MAX_LEN`].
    fn try_from(s: String) -> (r: Result<Self, SetBytesError>)
        ensures
            r is Ok <==> encode_utf8(s@).len() <= MAX_LEN,
            r matches Ok(b) ==> b@ == encode_utf8(s@) && !b.is_borrowed(),
    {
        let data = string_into_bytes(s);
        if data.len() > MAX_LEN {
            Err(SetBytesError::LengthOverflow)
        } else {
            Ok(Bytes { data: BytesInner::Owned(data) })
        }
    }
}

impl<'a> TryFromSpecImpl<String> for Bytes<'a> {
    /// The conversion is specified by the `ensures` of `try_from`, over views.
    open spec fn obeys_try_from_spec() -> bool {
        false
    }

    open spec fn try_from_spec(s: String) -> Result<Self, SetBytesError> {
        Err(SetBytesError::LengthOverflow)
    }
}

impl<'a> core::hash::Hash for Bytes<'a> {
    fn hash<H: core::hash::Hasher>(&self, state: &mut H) {
        hash_slice(self.as_bytes(), state)
    }
}

} // verus!
