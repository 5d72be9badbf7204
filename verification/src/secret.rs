//! Secrets, and the keys that items are encrypted with.
use vstd::prelude::*;

verus! {

/// A secret: a password, or what an item keeps.
pub struct Secret {
    pub bytes: Vec<u8>,
}

impl View for Secret {
    type V = Seq<u8>;

    open spec fn view(&self) -> Seq<u8> {
        self.bytes@
    }
}

impl Secret {
    /// The secret that holds these bytes.
    pub fn blob(bytes: Vec<u8>) -> (secret: Secret)
        ensures
            secret.bytes == bytes,
    {
        Secret { bytes }
    }

    /// The secret that holds a text, in UTF-8.
    pub fn text(value: &str) -> (secret: Secret)
        ensures
            secret@ == vstd::utf8::encode_utf8(value@),
    {
        Secret { bytes: value.as_bytes_vec() }
    }

    /// A second copy of the secret.
    pub fn duplicate(&self) -> (secret: Secret)
        ensures
            secret@ == self@,
    {
        let bytes = self.bytes.clone();
        assert(bytes@ =~= self.bytes@);
        Secret { bytes }
    }
}

/// What is known of the strength of a key.
#[derive(Clone, Copy, Debug, PartialEq, Eq, Structural)]
pub enum KeyStrength {
    /// Nothing was said about it.
    Unstated,
    /// The key was made to be strong enough.
    Adequate,
}

/// A key that items are encrypted and decrypted with.
pub struct Key {
    pub bytes: Vec<u8>,
    pub strength: KeyStrength,
}

/// A key as plain values.
pub struct KeyView {
    pub bytes: Seq<u8>,
    pub strength: KeyStrength,
}

impl View for Key {
    type V = KeyView;

    open spec fn view(&self) -> KeyView {
        KeyView { bytes: self.bytes@, strength: self.strength }
    }
}

impl Key {
    /// The key made of these bytes, of which nothing more is known.
    pub fn new(bytes: Vec<u8>) -> (key: Key)
        ensures
            key == (Key { bytes, strength: KeyStrength::Unstated }),
    {
        Key { bytes, strength: KeyStrength::Unstated }
    }

    /// The key made of these bytes, with what is known of its strength.
    pub fn new_with_strength(bytes: Vec<u8>, strength: KeyStrength) -> (key: Key)
        ensures
            key == (Key { bytes, strength }),
    {
        Key { bytes, strength }
    }

    /// A second copy of the key.
    pub fn duplicate(&self) -> (key: Key)
        ensures
            key@ == self@,
    {
        let bytes = self.bytes.clone();
        assert(bytes@ =~= self.bytes@);
        Key { bytes, strength: self.strength }
    }
}

} // verus!
