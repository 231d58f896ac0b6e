//! The wire format: primitives, marshalling, unmarshalling and validation.
use crate::wire::marshal::traits::Signature;
use vstd::prelude::*;

pub mod errors;
pub mod marshal;
pub mod round_trip;
pub mod unmarshal;
pub mod util;
pub mod validate_raw;
pub mod validity;

verus! {

/// A Unix file descriptor that travels beside a message. The payload holds
/// only its index in the list of descriptors of the message.
#[derive(Clone, Copy, Debug, PartialEq, Eq, Structural)]
pub struct UnixFd {
    pub fd: i32,
}

impl UnixFd {
    pub fn new(fd: i32) -> (r: UnixFd)
        ensures
            r.fd == fd,
    {
        UnixFd { fd }
    }

    pub fn get_raw_fd(&self) -> (r: i32)
        ensures
            r == self.fd,
    {
        self.fd
    }
}

/// A dict with keys of type `K` and values of type `V`: its entries in the
/// order in which they stand on the wire.
#[derive(Debug, PartialEq, Eq)]
pub struct Dict<K, V> {
    pub entries: Vec<(K, V)>,
}

impl<K, V> Dict<K, V> {
    /// A dict without entries.
    pub fn new() -> (r: Dict<K, V>)
        ensures
            r.entries@.len() == 0,
    {
        Dict { entries: Vec::new() }
    }

    /// The number of entries.
    pub fn len(&self) -> (n: usize)
        ensures
            n == self.entries@.len(),
    {
        self.entries.len()
    }

    pub fn is_empty(&self) -> (b: bool)
        ensures
            b == (self.entries@.len() == 0),
    {
        self.entries.len() == 0
    }
}

impl<K: marshal::traits::DictKey, V> Dict<K, V> {
    /// Whether no key occurs twice.
    pub open spec fn distinct_keys(&self) -> bool {
        forall|i: int, j: int|
            0 <= i < j < self.entries@.len() ==> (#[trigger] self.entries@[i]).0.param() != (
            #[trigger] self.entries@[j]).0.param()
    }

    /// Whether an entry has the key `key`.
    pub open spec fn has_key(&self, key: K) -> bool {
        exists|i: int|
            0 <= i < self.entries@.len() && (#[trigger] self.entries@[i]).0.param() == key.param()
    }

    /// Gives `key` the value `value`: in the first entry that has this
    /// key, or else in a new entry behind the others. No key comes to
    /// occur twice by this.
    pub fn insert(&mut self, key: K, value: V)
        ensures
            old(self).distinct_keys() ==> final(self).distinct_keys(),
            !old(self).has_key(key) ==> final(self).entries@ == old(self).entries@.push(
                (key, value),
            ),
            old(self).has_key(key) ==> exists|i: int|
                0 <= i < old(self).entries@.len() && (#[trigger] old(self).entries@[i]).0.param()
                    == key.param() && final(self).entries@ == old(self).entries@.update(
                    i,
                    (key, value),
                ) && forall|j: int|
                    0 <= j < i ==> (#[trigger] old(self).entries@[j]).0.param() != key.param(),
    {
        let mut i: usize = 0;
        while i < self.entries.len()
            invariant
                i <= self.entries.len(),
                self.entries@ == old(self).entries@,
                forall|j: int|
                    0 <= j < i ==> (#[trigger] self.entries@[j]).0.param() != key.param(),
            decreases self.entries.len() - i,
        {
            if self.entries[i].0.same_key(&key) {
                self.entries[i] = (key, value);
                return ;
            }
            i += 1;
        }
        self.entries.push((key, value));
    }

    /// The value of the first entry with the key `key`, if there is one.
    pub fn get(&self, key: &K) -> (r: Option<&V>)
        ensures
            match r {
                Some(v) => exists|i: int|
                    0 <= i < self.entries@.len() && (#[trigger] self.entries@[i]).0.param()
                        == key.param() && self.entries@[i].1 == *v && forall|j: int|
                        0 <= j < i ==> (#[trigger] self.entries@[j]).0.param() != key.param(),
                None => forall|i: int|
                    0 <= i < self.entries@.len() ==> (#[trigger] self.entries@[i]).0.param()
                        != key.param(),
            },
    {
        let mut i: usize = 0;
        while i < self.entries.len()
            invariant
                i <= self.entries.len(),
                forall|j: int|
                    0 <= j < i ==> (#[trigger] self.entries@[j]).0.param() != key.param(),
            decreases self.entries.len() - i,
        {
            if self.entries[i].0.same_key(key) {
                return Some(&self.entries[i].1);
            }
            i += 1;
        }
        None
    }
}

/// A value that is written as a variant: with its signature before it.
#[derive(Debug, PartialEq, Eq)]
pub struct Variant<T>(pub T);

/// A text that is an object path.
#[derive(Debug, PartialEq, Eq)]
pub struct ObjectPath {
    path: String,
}

impl View for ObjectPath {
    type V = Seq<char>;

    closed spec fn view(&self) -> Seq<char> {
        self.path@
    }
}

impl ObjectPath {
    /// Takes `path` if it is an object path.
    pub fn new(path: String) -> (r: Result<ObjectPath, errors::MarshalError>)
        ensures
            match r {
                Ok(p) => crate::params::valid_object_path(path@) && p@ == path@,
                Err(e) => !crate::params::valid_object_path(path@) && e
                    == errors::MarshalError::InvalidObjectPath,
            },
    {
        crate::params::validate_object_path(path.as_str())?;
        Ok(ObjectPath { path })
    }

    pub fn as_str(&self) -> (r: &str)
        ensures
            r@ == self@,
    {
        self.path.as_str()
    }
}

/// A text that is a signature.
#[derive(Debug, PartialEq, Eq)]
pub struct SignatureWrapper {
    sig: String,
}

impl View for SignatureWrapper {
    type V = Seq<char>;

    closed spec fn view(&self) -> Seq<char> {
        self.sig@
    }
}

impl SignatureWrapper {
    /// Takes `sig` if it is a signature.
    pub fn new(sig: String) -> (r: Result<SignatureWrapper, errors::MarshalError>)
        ensures
            match r {
                Ok(s) => crate::params::valid_signature(sig@) && s@ == sig@,
                Err(e) => crate::signature::parse_description_spec(sig@) matches Err(f) && e
                    == errors::MarshalError::of_signature(f),
            },
    {
        match crate::params::validate_signature(sig.as_str()) {
            Ok(()) => Ok(SignatureWrapper { sig }),
            Err(e) => Err(errors::MarshalError::from_signature(e)),
        }
    }

    pub fn as_str(&self) -> (r: &str)
        ensures
            r@ == self@,
    {
        self.sig.as_str()
    }
}

impl Clone for ObjectPath {
    fn clone(&self) -> (r: ObjectPath)
        ensures
            r@ == self@,
    {
        ObjectPath { path: self.path.clone() }
    }
}

impl Clone for SignatureWrapper {
    fn clone(&self) -> (r: SignatureWrapper)
        ensures
            r@ == self@,
    {
        SignatureWrapper { sig: self.sig.clone() }
    }
}

} // verus!
