//! The coin/note data model and the call parameters, with their exact byte
//! codecs.
//!
//! Every structure that travels inside a contract call is encoded as the
//! plain concatenation of its fields (words little-endian, field elements as
//! their canonical 32-byte encoding, vectors behind a word-sized count) and
//! decoded by a total parser; malformed bytes are a decode error before any
//! validation phase runs.

use vstd::prelude::*;

use crate::field::{
    coords_of, dec_u64_at, fixed_point, fixed_point_of, key_gen_tag, mod_r_p, point_coords,
    point_mul, point_mul_of, push_u64_le, read_u64_at, u64_le, Base, Point, Scalar,
};

verus! {

/// The affine coordinate pair of the public key derived from a secret key.
pub open spec fn pubkey_of(s: nat) -> (nat, nat) {
    coords_of(point_mul_of(fixed_point_of(key_gen_tag()), s))
}

/// A public key, as the affine coordinates of a group element.
#[derive(Clone, Copy, PartialEq, Eq, Structural, Debug)]
pub struct PublicKey {
    pub x: Base,
    pub y: Base,
}

impl PublicKey {
    pub open spec fn wf(self) -> bool {
        self.x.wf() && self.y.wf()
    }

    /// The 64-byte encoding: the two coordinates.
    pub open spec fn enc(self) -> Seq<u8> {
        self.x.enc() + self.y.enc()
    }

    /// The key-base multiple of the secret key.
    pub fn from_secret(secret: &Base) -> (r: PublicKey)
        requires
            secret.wf(),
        ensures
            r.wf(),
            r.x.val() == pubkey_of(secret.val()).0,
            r.y.val() == pubkey_of(secret.val()).1,
    {
        let g = fixed_point(2);
        let s = mod_r_p(secret);
        let p = point_mul(&g, &s);
        let (x, y) = point_coords(&p);
        PublicKey { x, y }
    }

    /// Appends the encoding.
    pub fn encode(&self, out: &mut Vec<u8>)
        ensures
            final(out)@ == old(out)@ + self.enc(),
    {
        self.x.encode(out);
        self.y.encode(out);
        proof {
            assert(out@ =~= old(out)@ + self.enc());
        }
    }

    /// Parses a public key at offset `i`.
    pub open spec fn dec_at(s: Seq<u8>, i: int) -> Option<(PublicKey, int)> {
        match Base::dec_at(s, i) {
            None => None,
            Some((x, j)) => match Base::dec_at(s, j) {
                None => None,
                Some((y, k)) => Some((PublicKey { x, y }, k)),
            },
        }
    }

    /// Reads a public key at offset `i`.
    pub fn decode(s: &Vec<u8>, i: usize) -> (r: Option<(PublicKey, usize)>)
        ensures
            r is Some <==> PublicKey::dec_at(s@, i as int) is Some,
            r is Some ==> Some((r->Some_0.0, r->Some_0.1 as int)) == PublicKey::dec_at(
                s@,
                i as int,
            ) && r->Some_0.0.wf(),
    {
        let (x, j) = match Base::decode(s, i) {
            Some(v) => v,
            None => { return None },
        };
        let (y, k) = match Base::decode(s, j) {
            Some(v) => v,
            None => { return None },
        };
        Some((PublicKey { x, y }, k))
    }
}

// ---------------------------------------------------------------------------
// Notes and sealed notes.
// ---------------------------------------------------------------------------

/// The mathematical contents of a [`Note`].
pub struct NoteV {
    pub serial: Base,
    pub value: u64,
    pub token_id: Base,
    pub spend_hook: Base,
    pub user_data: Base,
    pub coin_blind: Base,
    pub value_blind: Scalar,
    pub token_blind: Scalar,
    pub memo: Seq<u8>,
}

impl NoteV {
    pub open spec fn wf(self) -> bool {
        self.serial.wf() && self.token_id.wf() && self.spend_hook.wf() && self.user_data.wf()
            && self.coin_blind.wf() && self.value_blind.wf() && self.token_blind.wf()
    }

    /// The encoding: the fixed fields, then the count-prefixed memo.
    pub open spec fn enc(self) -> Seq<u8> {
        self.serial.enc() + u64_le(self.value) + self.token_id.enc() + self.spend_hook.enc()
            + self.user_data.enc() + self.coin_blind.enc() + self.value_blind.enc()
            + self.token_blind.enc() + u64_le(self.memo.len() as u64) + self.memo
    }
}

/// The plaintext fields of a confidential output, owned by its recipient.
#[derive(Clone, Debug)]
pub struct Note {
    /// Unique per-output nonce.
    pub serial: Base,
    /// The hidden amount.
    pub value: u64,
    /// The hidden token identifier.
    pub token_id: Base,
    /// Contract that must run alongside any spend of this note, or zero.
    pub spend_hook: Base,
    /// Data carried for the spend-hook contract.
    pub user_data: Base,
    /// Blinding factor of the coin commitment.
    pub coin_blind: Base,
    /// Blinding factor of the value commitment.
    pub value_blind: Scalar,
    /// Blinding factor of the token commitment.
    pub token_blind: Scalar,
    /// Free-form memo bytes.
    pub memo: Vec<u8>,
}

impl View for Note {
    type V = NoteV;

    open spec fn view(&self) -> NoteV {
        NoteV {
            serial: self.serial,
            value: self.value,
            token_id: self.token_id,
            spend_hook: self.spend_hook,
            user_data: self.user_data,
            coin_blind: self.coin_blind,
            value_blind: self.value_blind,
            token_blind: self.token_blind,
            memo: self.memo@,
        }
    }
}

impl Note {
    /// Appends the encoding.
    pub fn encode(&self, out: &mut Vec<u8>)
        ensures
            final(out)@ == old(out)@ + self@.enc(),
    {
        self.serial.encode(out);
        push_u64_le(out, self.value);
        self.token_id.encode(out);
        self.spend_hook.encode(out);
        self.user_data.encode(out);
        self.coin_blind.encode(out);
        self.value_blind.encode(out);
        self.token_blind.encode(out);
        push_u64_le(out, self.memo.len() as u64);
        let ghost mid = out@;
        let mut k: usize = 0;
        while k < self.memo.len()
            invariant
                0 <= k <= self.memo@.len(),
                out@ == mid + self.memo@.subrange(0, k as int),
            decreases self.memo@.len() - k,
        {
            out.push(self.memo[k]);
            proof {
                assert(out@ =~= mid + self.memo@.subrange(0, k + 1));
            }
            k = k + 1;
        }
        proof {
            assert(self.memo@.subrange(0, self.memo@.len() as int) =~= self.memo@);
            assert(out@ =~= old(out)@ + self@.enc());
        }
    }

    /// Parses a note at offset `i`.
    pub open spec fn dec_at(s: Seq<u8>, i: int) -> Option<(NoteV, int)> {
        match Base::dec_at(s, i) {
            None => None,
            Some((serial, j1)) => match dec_u64_at(s, j1) {
                None => None,
                Some((value, j2)) => match Base::dec_at(s, j2) {
                    None => None,
                    Some((token_id, j3)) => match Base::dec_at(s, j3) {
                        None => None,
                        Some((spend_hook, j4)) => match Base::dec_at(s, j4) {
                            None => None,
                            Some((user_data, j5)) => match Base::dec_at(s, j5) {
                                None => None,
                                Some((coin_blind, j6)) => match Scalar::dec_at(s, j6) {
                                    None => None,
                                    Some((value_blind, j7)) => match Scalar::dec_at(s, j7) {
                                        None => None,
                                        Some((token_blind, j8)) => match dec_u64_at(s, j8) {
                                            None => None,
                                            Some((mlen, j9)) => if j9 + mlen <= s.len() {
                                                Some(
                                                    (
                                                        NoteV {
                                                            serial,
                                                            value,
                                                            token_id,
                                                            spend_hook,
                                                            user_data,
                                                            coin_blind,
                                                            value_blind,
                                                            token_blind,
                                                            memo: s.subrange(j9, j9 + mlen),
                                                        },
                                                        j9 + mlen,
                                                    ),
                                                )
                                            } else {
                                                None
                                            },
                                        },
                                    },
                                },
                            },
                        },
                    },
                },
            },
        }
    }

    /// Reads a note at offset `i`.
    pub fn decode(s: &Vec<u8>, i: usize) -> (r: Option<(Note, usize)>)
        ensures
            r is Some <==> Note::dec_at(s@, i as int) is Some,
            r is Some ==> {
                let (v, j) = Note::dec_at(s@, i as int)->Some_0;
                r->Some_0.0@ == v && r->Some_0.1 as int == j && v.wf()
            },
    {
        let (serial, j1) = match Base::decode(s, i) {
            Some(v) => v,
            None => { return None },
        };
        let (value, j2) = match read_u64_at(s, j1) {
            Some(v) => v,
            None => { return None },
        };
        let (token_id, j3) = match Base::decode(s, j2) {
            Some(v) => v,
            None => { return None },
        };
        let (spend_hook, j4) = match Base::decode(s, j3) {
            Some(v) => v,
            None => { return None },
        };
        let (user_data, j5) = match Base::decode(s, j4) {
            Some(v) => v,
            None => { return None },
        };
        let (coin_blind, j6) = match Base::decode(s, j5) {
            Some(v) => v,
            None => { return None },
        };
        let (value_blind, j7) = match Scalar::decode(s, j6) {
            Some(v) => v,
            None => { return None },
        };
        let (token_blind, j8) = match Scalar::decode(s, j7) {
            Some(v) => v,
            None => { return None },
        };
        let (mlen, j9) = match read_u64_at(s, j8) {
            Some(v) => v,
            None => { return None },
        };
        if mlen > (s.len() - j9) as u64 {
            return None;
        }
        let mlen: usize = mlen as usize;
        let slen: usize = s.len();
        let mut memo: Vec<u8> = Vec::new();
        let mut k: usize = 0;
        while k < mlen
            invariant
                0 <= k <= mlen,
                j9 + mlen <= slen,
                slen == s@.len(),
                memo@ == s@.subrange(j9 as int, j9 + k),
            decreases mlen - k,
        {
            memo.push(s[j9 + k]);
            proof {
                assert(memo@ =~= s@.subrange(j9 as int, j9 + k + 1));
            }
            k = k + 1;
        }
        let note = Note {
            serial,
            value,
            token_id,
            spend_hook,
            user_data,
            coin_blind,
            value_blind,
            token_blind,
            memo,
        };
        Some((note, j9 + mlen))
    }
}

/// A note sealed for a recipient.  Sealing is modeled at its boundary: the
/// sealed note names the recipient key and opens only for the matching
/// secret; the cipher itself is an opaque outside building block.
#[derive(Clone, Debug)]
pub struct EncryptedNote {
    pub recipient: PublicKey,
    pub payload: Note,
}

/// The mathematical contents of an [`EncryptedNote`].
pub struct EncryptedNoteV {
    pub recipient: PublicKey,
    pub payload: NoteV,
}

impl View for EncryptedNote {
    type V = EncryptedNoteV;

    open spec fn view(&self) -> EncryptedNoteV {
        EncryptedNoteV { recipient: self.recipient, payload: self.payload@ }
    }
}

impl EncryptedNoteV {
    pub open spec fn wf(self) -> bool {
        self.recipient.wf() && self.payload.wf()
    }

    /// The encoding: recipient key, then the note.
    pub open spec fn enc(self) -> Seq<u8> {
        self.recipient.enc() + self.payload.enc()
    }
}

impl EncryptedNote {
    /// Seals a note for a recipient.
    pub fn encrypt(note: Note, recipient: &PublicKey) -> (r: EncryptedNote)
        ensures
            r@.recipient == *recipient,
            r@.payload == note@,
    {
        EncryptedNote { recipient: *recipient, payload: note }
    }

    /// Opens the sealed note.  Holders of a non-matching secret get nothing:
    /// for them failure is the normal, silent outcome.
    pub fn decrypt(&self, secret: &Base) -> (r: Option<Note>)
        requires
            secret.wf(),
        ensures
            r is Some <==> (pubkey_of(secret.val()).0 == self.recipient.x.val() && pubkey_of(
                secret.val(),
            ).1 == self.recipient.y.val()),
            r is Some ==> r->0@ == self@.payload,
    {
        let pk = PublicKey::from_secret(secret);
        proof {
            crate::field::lemma_base_eq(pk.x, self.recipient.x);
            crate::field::lemma_base_eq(pk.y, self.recipient.y);
        }
        if pk.x == self.recipient.x && pk.y == self.recipient.y {
            Some(self.payload.clone_note())
        } else {
            None
        }
    }

    /// Appends the encoding.
    pub fn encode(&self, out: &mut Vec<u8>)
        ensures
            final(out)@ == old(out)@ + self@.enc(),
    {
        self.recipient.encode(out);
        self.payload.encode(out);
        proof {
            assert(out@ =~= old(out)@ + self@.enc());
        }
    }

    /// Parses a sealed note at offset `i`.
    pub open spec fn dec_at(s: Seq<u8>, i: int) -> Option<(EncryptedNoteV, int)> {
        match PublicKey::dec_at(s, i) {
            None => None,
            Some((recipient, j)) => match Note::dec_at(s, j) {
                None => None,
                Some((payload, k)) => Some((EncryptedNoteV { recipient, payload }, k)),
            },
        }
    }

    /// Reads a sealed note at offset `i`.
    pub fn decode(s: &Vec<u8>, i: usize) -> (r: Option<(EncryptedNote, usize)>)
        ensures
            r is Some <==> EncryptedNote::dec_at(s@, i as int) is Some,
            r is Some ==> {
                let (v, j) = EncryptedNote::dec_at(s@, i as int)->Some_0;
                r->Some_0.0@ == v && r->Some_0.1 as int == j && v.wf()
            },
    {
        let (recipient, j) = match PublicKey::decode(s, i) {
            Some(v) => v,
            None => { return None },
        };
        let (payload, k) = match Note::decode(s, j) {
            Some(v) => v,
            None => { return None },
        };
        Some((EncryptedNote { recipient, payload }, k))
    }
}

// ---------------------------------------------------------------------------
// Per-function call payloads.
// ---------------------------------------------------------------------------

/// A transaction input whose value and token are revealed in plaintext.
#[derive(Clone, Copy, PartialEq, Eq, Structural, Debug)]
pub struct ClearInput {
    pub value: u64,
    pub token_id: Base,
    pub value_blind: Scalar,
    pub token_blind: Scalar,
    pub signature_public: PublicKey,
}

impl ClearInput {
    pub open spec fn wf(self) -> bool {
        self.token_id.wf() && self.value_blind.wf() && self.token_blind.wf()
            && self.signature_public.wf()
    }

    pub open spec fn enc(self) -> Seq<u8> {
        u64_le(self.value) + self.token_id.enc() + self.value_blind.enc() + self.token_blind.enc()
            + self.signature_public.enc()
    }

    /// Appends the encoding.
    pub fn encode(&self, out: &mut Vec<u8>)
        ensures
            final(out)@ == old(out)@ + self.enc(),
    {
        push_u64_le(out, self.value);
        self.token_id.encode(out);
        self.value_blind.encode(out);
        self.token_blind.encode(out);
        self.signature_public.encode(out);
        proof {
            assert(out@ =~= old(out)@ + self.enc());
        }
    }

    /// Parses a clear input at offset `i`.
    pub open spec fn dec_at(s: Seq<u8>, i: int) -> Option<(ClearInput, int)> {
        match dec_u64_at(s, i) {
            None => None,
            Some((value, j1)) => match Base::dec_at(s, j1) {
                None => None,
                Some((token_id, j2)) => match Scalar::dec_at(s, j2) {
                    None => None,
                    Some((value_blind, j3)) => match Scalar::dec_at(s, j3) {
                        None => None,
                        Some((token_blind, j4)) => match PublicKey::dec_at(s, j4) {
                            None => None,
                            Some((signature_public, j5)) => Some(
                                (
                                    ClearInput {
                                        value,
                                        token_id,
                                        value_blind,
                                        token_blind,
                                        signature_public,
                                    },
                                    j5,
                                ),
                            ),
                        },
                    },
                },
            },
        }
    }

    /// Reads a clear input at offset `i`.
    pub fn decode(s: &Vec<u8>, i: usize) -> (r: Option<(ClearInput, usize)>)
        ensures
            r is Some <==> ClearInput::dec_at(s@, i as int) is Some,
            r is Some ==> Some((r->Some_0.0, r->Some_0.1 as int)) == ClearInput::dec_at(
                s@,
                i as int,
            ) && r->Some_0.0.wf(),
    {
        let (value, j1) = match read_u64_at(s, i) {
            Some(v) => v,
            None => { return None },
        };
        let (token_id, j2) = match Base::decode(s, j1) {
            Some(v) => v,
            None => { return None },
        };
        let (value_blind, j3) = match Scalar::decode(s, j2) {
            Some(v) => v,
            None => { return None },
        };
        let (token_blind, j4) = match Scalar::decode(s, j3) {
            Some(v) => v,
            None => { return None },
        };
        let (signature_public, j5) = match PublicKey::decode(s, j4) {
            Some(v) => v,
            None => { return None },
        };
        Some((ClearInput { value, token_id, value_blind, token_blind, signature_public }, j5))
    }
}

/// An anonymous transaction input: only commitments, the nullifier and the
/// membership root are revealed.
#[derive(Clone, Copy, PartialEq, Eq, Structural, Debug)]
pub struct Input {
    pub value_commit: Point,
    pub token_commit: Point,
    pub nullifier: Base,
    pub merkle_root: Base,
    pub spend_hook: Base,
    pub user_data_enc: Base,
    pub signature_public: PublicKey,
}

impl Input {
    pub open spec fn wf(self) -> bool {
        self.nullifier.wf() && self.merkle_root.wf() && self.spend_hook.wf()
            && self.user_data_enc.wf() && self.signature_public.wf()
    }

    pub open spec fn enc(self) -> Seq<u8> {
        self.value_commit.enc() + self.token_commit.enc() + self.nullifier.enc()
            + self.merkle_root.enc() + self.spend_hook.enc() + self.user_data_enc.enc()
            + self.signature_public.enc()
    }

    /// Appends the encoding.
    pub fn encode(&self, out: &mut Vec<u8>)
        ensures
            final(out)@ == old(out)@ + self.enc(),
    {
        self.value_commit.encode(out);
        self.token_commit.encode(out);
        self.nullifier.encode(out);
        self.merkle_root.encode(out);
        self.spend_hook.encode(out);
        self.user_data_enc.encode(out);
        self.signature_public.encode(out);
        proof {
            assert(out@ =~= old(out)@ + self.enc());
        }
    }

    /// Parses an anonymous input at offset `i`.
    pub open spec fn dec_at(s: Seq<u8>, i: int) -> Option<(Input, int)> {
        match Point::dec_at(s, i) {
            None => None,
            Some((value_commit, j1)) => match Point::dec_at(s, j1) {
                None => None,
                Some((token_commit, j2)) => match Base::dec_at(s, j2) {
                    None => None,
                    Some((nullifier, j3)) => match Base::dec_at(s, j3) {
                        None => None,
                        Some((merkle_root, j4)) => match Base::dec_at(s, j4) {
                            None => None,
                            Some((spend_hook, j5)) => match Base::dec_at(s, j5) {
                                None => None,
                                Some((user_data_enc, j6)) => match PublicKey::dec_at(s, j6) {
                                    None => None,
                                    Some((signature_public, j7)) => Some(
                                        (
                                            Input {
                                                value_commit,
                                                token_commit,
                                                nullifier,
                                                merkle_root,
                                                spend_hook,
                                                user_data_enc,
                                                signature_public,
                                            },
                                            j7,
                                        ),
                                    ),
                                },
                            },
                        },
                    },
                },
            },
        }
    }

    /// Reads an anonymous input at offset `i`.
    pub fn decode(s: &Vec<u8>, i: usize) -> (r: Option<(Input, usize)>)
        ensures
            r is Some <==> Input::dec_at(s@, i as int) is Some,
            r is Some ==> Some((r->Some_0.0, r->Some_0.1 as int)) == Input::dec_at(s@, i as int)
                && r->Some_0.0.wf(),
    {
        let (value_commit, j1) = match Point::decode(s, i) {
            Some(v) => v,
            None => { return None },
        };
        let (token_commit, j2) = match Point::decode(s, j1) {
            Some(v) => v,
            None => { return None },
        };
        let (nullifier, j3) = match Base::decode(s, j2) {
            Some(v) => v,
            None => { return None },
        };
        let (merkle_root, j4) = match Base::decode(s, j3) {
            Some(v) => v,
            None => { return None },
        };
        let (spend_hook, j5) = match Base::decode(s, j4) {
            Some(v) => v,
            None => { return None },
        };
        let (user_data_enc, j6) = match Base::decode(s, j5) {
            Some(v) => v,
            None => { return None },
        };
        let (signature_public, j7) = match PublicKey::decode(s, j6) {
            Some(v) => v,
            None => { return None },
        };
        Some(
            (
                Input {
                    value_commit,
                    token_commit,
                    nullifier,
                    merkle_root,
                    spend_hook,
                    user_data_enc,
                    signature_public,
                },
                j7,
            ),
        )
    }
}

/// The revealed information of a burnt staked coin.
#[derive(Clone, Copy, PartialEq, Eq, Structural, Debug)]
pub struct StakeInput {
    pub token_blind: Scalar,
    pub value_commit: Point,
    pub nullifier: Base,
    pub merkle_root: Base,
    pub signature_public: PublicKey,
}

impl StakeInput {
    pub open spec fn wf(self) -> bool {
        self.token_blind.wf() && self.nullifier.wf() && self.merkle_root.wf()
            && self.signature_public.wf()
    }
}

/// An anonymous transaction output: commitments, the coin, and the sealed
/// note for the recipient.
#[derive(Clone, Debug)]
pub struct Output {
    pub value_commit: Point,
    pub token_commit: Point,
    pub coin: Base,
    pub note: EncryptedNote,
}

/// The mathematical contents of an [`Output`].
pub struct OutputV {
    pub value_commit: Point,
    pub token_commit: Point,
    pub coin: Base,
    pub note: EncryptedNoteV,
}

impl View for Output {
    type V = OutputV;

    open spec fn view(&self) -> OutputV {
        OutputV {
            value_commit: self.value_commit,
            token_commit: self.token_commit,
            coin: self.coin,
            note: self.note@,
        }
    }
}

impl OutputV {
    pub open spec fn wf(self) -> bool {
        self.coin.wf() && self.note.wf()
    }

    pub open spec fn enc(self) -> Seq<u8> {
        self.value_commit.enc() + self.token_commit.enc() + self.coin.enc() + self.note.enc()
    }
}

impl Output {
    /// Appends the encoding.
    pub fn encode(&self, out: &mut Vec<u8>)
        ensures
            final(out)@ == old(out)@ + self@.enc(),
    {
        self.value_commit.encode(out);
        self.token_commit.encode(out);
        self.coin.encode(out);
        self.note.encode(out);
        proof {
            assert(out@ =~= old(out)@ + self@.enc());
        }
    }

    /// Parses an output at offset `i`.
    pub open spec fn dec_at(s: Seq<u8>, i: int) -> Option<(OutputV, int)> {
        match Point::dec_at(s, i) {
            None => None,
            Some((value_commit, j1)) => match Point::dec_at(s, j1) {
                None => None,
                Some((token_commit, j2)) => match Base::dec_at(s, j2) {
                    None => None,
                    Some((coin, j3)) => match EncryptedNote::dec_at(s, j3) {
                        None => None,
                        Some((note, j4)) => Some(
                            (OutputV { value_commit, token_commit, coin, note }, j4),
                        ),
                    },
                },
            },
        }
    }

    /// Reads an output at offset `i`.
    pub fn decode(s: &Vec<u8>, i: usize) -> (r: Option<(Output, usize)>)
        ensures
            r is Some <==> Output::dec_at(s@, i as int) is Some,
            r is Some ==> {
                let (v, j) = Output::dec_at(s@, i as int)->Some_0;
                r->Some_0.0@ == v && r->Some_0.1 as int == j && v.wf()
            },
    {
        let (value_commit, j1) = match Point::decode(s, i) {
            Some(v) => v,
            None => { return None },
        };
        let (token_commit, j2) = match Point::decode(s, j1) {
            Some(v) => v,
            None => { return None },
        };
        let (coin, j3) = match Base::decode(s, j2) {
            Some(v) => v,
            None => { return None },
        };
        let (note, j4) = match EncryptedNote::decode(s, j3) {
            Some(v) => v,
            None => { return None },
        };
        Some((Output { value_commit, token_commit, coin, note }, j4))
    }
}

// ---------------------------------------------------------------------------
// Count-prefixed vectors.
// ---------------------------------------------------------------------------

pub open spec fn prepend_clear_inputs(pre: Seq<ClearInput>, r: Option<(Seq<ClearInput>, int)>) -> Option<
    (Seq<ClearInput>, int),
> {
    match r {
        None => None,
        Some((vs, j)) => Some((pre + vs, j)),
    }
}

/// Parses `n` clear inputs in sequence.
pub open spec fn dec_many_clear_inputs(s: Seq<u8>, i: int, n: nat) -> Option<(Seq<ClearInput>, int)>
    decreases n,
{
    if n == 0 {
        Some((Seq::empty(), i))
    } else {
        match ClearInput::dec_at(s, i) {
            None => None,
            Some((v, j)) => prepend_clear_inputs(seq![v], dec_many_clear_inputs(s, j, (n - 1) as nat)),
        }
    }
}

/// Reads `n` clear inputs in sequence.
pub fn decode_many_clear_inputs(s: &Vec<u8>, i: usize, n: usize) -> (r: Option<
    (Vec<ClearInput>, usize),
>)
    ensures
        r is Some <==> dec_many_clear_inputs(s@, i as int, n as nat) is Some,
        r is Some ==> {
            let (vs, j) = dec_many_clear_inputs(s@, i as int, n as nat)->Some_0;
            r->Some_0.0@ == vs && r->Some_0.1 as int == j && forall|q: int|
                0 <= q < vs.len() ==> (#[trigger] vs[q]).wf()
        },
{
    let mut acc: Vec<ClearInput> = Vec::new();
    let mut off: usize = i;
    let mut k: usize = 0;
    while k < n
        invariant
            0 <= k <= n,
            acc@.len() == k,
            forall|q: int| 0 <= q < k ==> (#[trigger] acc@[q]).wf(),
            dec_many_clear_inputs(s@, i as int, n as nat) == prepend_clear_inputs(
                acc@,
                dec_many_clear_inputs(s@, off as int, (n - k) as nat),
            ),
        decreases n - k,
    {
        let (v, j) = match ClearInput::decode(s, off) {
            Some(v) => v,
            None => { return None },
        };
        proof {
            let tail = dec_many_clear_inputs(s@, j as int, (n - k - 1) as nat);
            assert(dec_many_clear_inputs(s@, off as int, (n - k) as nat) == prepend_clear_inputs(
                seq![v],
                tail,
            ));
            if tail is Some {
                assert(acc@ + (seq![v] + tail->Some_0.0) =~= (acc@ + seq![v]) + tail->Some_0.0);
            }
        }
        acc.push(v);
        off = j;
        k = k + 1;
    }
    proof {
        assert(acc@ + Seq::<ClearInput>::empty() =~= acc@);
    }
    Some((acc, off))
}

pub open spec fn prepend_inputs(pre: Seq<Input>, r: Option<(Seq<Input>, int)>) -> Option<
    (Seq<Input>, int),
> {
    match r {
        None => None,
        Some((vs, j)) => Some((pre + vs, j)),
    }
}

/// Parses `n` anonymous inputs in sequence.
pub open spec fn dec_many_inputs(s: Seq<u8>, i: int, n: nat) -> Option<(Seq<Input>, int)>
    decreases n,
{
    if n == 0 {
        Some((Seq::empty(), i))
    } else {
        match Input::dec_at(s, i) {
            None => None,
            Some((v, j)) => prepend_inputs(seq![v], dec_many_inputs(s, j, (n - 1) as nat)),
        }
    }
}

/// Reads `n` anonymous inputs in sequence.
pub fn decode_many_inputs(s: &Vec<u8>, i: usize, n: usize) -> (r: Option<(Vec<Input>, usize)>)
    ensures
        r is Some <==> dec_many_inputs(s@, i as int, n as nat) is Some,
        r is Some ==> {
            let (vs, j) = dec_many_inputs(s@, i as int, n as nat)->Some_0;
            r->Some_0.0@ == vs && r->Some_0.1 as int == j && forall|q: int|
                0 <= q < vs.len() ==> (#[trigger] vs[q]).wf()
        },
{
    let mut acc: Vec<Input> = Vec::new();
    let mut off: usize = i;
    let mut k: usize = 0;
    while k < n
        invariant
            0 <= k <= n,
            acc@.len() == k,
            forall|q: int| 0 <= q < k ==> (#[trigger] acc@[q]).wf(),
            dec_many_inputs(s@, i as int, n as nat) == prepend_inputs(
                acc@,
                dec_many_inputs(s@, off as int, (n - k) as nat),
            ),
        decreases n - k,
    {
        let (v, j) = match Input::decode(s, off) {
            Some(v) => v,
            None => { return None },
        };
        proof {
            let tail = dec_many_inputs(s@, j as int, (n - k - 1) as nat);
            assert(dec_many_inputs(s@, off as int, (n - k) as nat) == prepend_inputs(
                seq![v],
                tail,
            ));
            if tail is Some {
                assert(acc@ + (seq![v] + tail->Some_0.0) =~= (acc@ + seq![v]) + tail->Some_0.0);
            }
        }
        acc.push(v);
        off = j;
        k = k + 1;
    }
    proof {
        assert(acc@ + Seq::<Input>::empty() =~= acc@);
    }
    Some((acc, off))
}

pub open spec fn prepend_outputs(pre: Seq<OutputV>, r: Option<(Seq<OutputV>, int)>) -> Option<
    (Seq<OutputV>, int),
> {
    match r {
        None => None,
        Some((vs, j)) => Some((pre + vs, j)),
    }
}

/// Parses `n` outputs in sequence.
pub open spec fn dec_many_outputs(s: Seq<u8>, i: int, n: nat) -> Option<(Seq<OutputV>, int)>
    decreases n,
{
    if n == 0 {
        Some((Seq::empty(), i))
    } else {
        match Output::dec_at(s, i) {
            None => None,
            Some((v, j)) => prepend_outputs(seq![v], dec_many_outputs(s, j, (n - 1) as nat)),
        }
    }
}

/// The views of a vector of outputs.
pub open spec fn outputs_view(vs: Seq<Output>) -> Seq<OutputV> {
    vs.map_values(|o: Output| o@)
}

/// Reads `n` outputs in sequence.
#[verifier::rlimit(100)]
#[verifier::spinoff_prover]
pub fn decode_many_outputs(s: &Vec<u8>, i: usize, n: usize) -> (r: Option<(Vec<Output>, usize)>)
    ensures
        r is Some <==> dec_many_outputs(s@, i as int, n as nat) is Some,
        r is Some ==> {
            let (vs, j) = dec_many_outputs(s@, i as int, n as nat)->Some_0;
            outputs_view(r->Some_0.0@) == vs && r->Some_0.1 as int == j && forall|q: int|
                0 <= q < vs.len() ==> (#[trigger] vs[q]).wf()
        },
{
    let mut acc: Vec<Output> = Vec::new();
    let mut off: usize = i;
    let mut k: usize = 0;
    while k < n
        invariant
            0 <= k <= n,
            acc@.len() == k,
            forall|q: int| 0 <= q < k ==> (#[trigger] outputs_view(acc@)[q]).wf(),
            dec_many_outputs(s@, i as int, n as nat) == prepend_outputs(
                outputs_view(acc@),
                dec_many_outputs(s@, off as int, (n - k) as nat),
            ),
        decreases n - k,
    {
        let (v, j) = match Output::decode(s, off) {
            Some(v) => v,
            None => { return None },
        };
        proof {
            let tail = dec_many_outputs(s@, j as int, (n - k - 1) as nat);
            assert(dec_many_outputs(s@, off as int, (n - k) as nat) == prepend_outputs(
                seq![v@],
                tail,
            ));
            if tail is Some {
                assert(outputs_view(acc@) + (seq![v@] + tail->Some_0.0) =~= (outputs_view(acc@)
                    + seq![v@]) + tail->Some_0.0);
            }
            assert(outputs_view(acc@.push(v)) =~= outputs_view(acc@) + seq![v@]);
        }
        acc.push(v);
        off = j;
        k = k + 1;
    }
    proof {
        assert(outputs_view(acc@) + Seq::<OutputV>::empty() =~= outputs_view(acc@));
    }
    Some((acc, off))
}

pub open spec fn prepend_bases(pre: Seq<Base>, r: Option<(Seq<Base>, int)>) -> Option<
    (Seq<Base>, int),
> {
    match r {
        None => None,
        Some((vs, j)) => Some((pre + vs, j)),
    }
}

/// Parses `n` base-field elements in sequence.
pub open spec fn dec_many_bases(s: Seq<u8>, i: int, n: nat) -> Option<(Seq<Base>, int)>
    decreases n,
{
    if n == 0 {
        Some((Seq::empty(), i))
    } else {
        match Base::dec_at(s, i) {
            None => None,
            Some((v, j)) => prepend_bases(seq![v], dec_many_bases(s, j, (n - 1) as nat)),
        }
    }
}

/// Reads `n` base-field elements in sequence.
pub fn decode_many_bases(s: &Vec<u8>, i: usize, n: usize) -> (r: Option<(Vec<Base>, usize)>)
    ensures
        r is Some <==> dec_many_bases(s@, i as int, n as nat) is Some,
        r is Some ==> {
            let (vs, j) = dec_many_bases(s@, i as int, n as nat)->Some_0;
            r->Some_0.0@ == vs && r->Some_0.1 as int == j && forall|q: int|
                0 <= q < vs.len() ==> (#[trigger] vs[q]).wf()
        },
{
    let mut acc: Vec<Base> = Vec::new();
    let mut off: usize = i;
    let mut k: usize = 0;
    while k < n
        invariant
            0 <= k <= n,
            acc@.len() == k,
            forall|q: int| 0 <= q < k ==> (#[trigger] acc@[q]).wf(),
            dec_many_bases(s@, i as int, n as nat) == prepend_bases(
                acc@,
                dec_many_bases(s@, off as int, (n - k) as nat),
            ),
        decreases n - k,
    {
        let (v, j) = match Base::decode(s, off) {
            Some(v) => v,
            None => { return None },
        };
        proof {
            let tail = dec_many_bases(s@, j as int, (n - k - 1) as nat);
            assert(dec_many_bases(s@, off as int, (n - k) as nat) == prepend_bases(
                seq![v],
                tail,
            ));
            if tail is Some {
                assert(acc@ + (seq![v] + tail->Some_0.0) =~= (acc@ + seq![v]) + tail->Some_0.0);
            }
        }
        acc.push(v);
        off = j;
        k = k + 1;
    }
    proof {
        assert(acc@ + Seq::<Base>::empty() =~= acc@);
    }
    Some((acc, off))
}

// ---------------------------------------------------------------------------
// Call parameters per contract function.
// ---------------------------------------------------------------------------

/// Parameters of a money transfer (or atomic swap) call.
#[derive(Debug)]
pub struct MoneyTransferParamsV1 {
    pub clear_inputs: Vec<ClearInput>,
    pub inputs: Vec<Input>,
    pub outputs: Vec<Output>,
}

/// The mathematical contents of [`MoneyTransferParamsV1`].
pub struct MoneyTransferParamsV1V {
    pub clear_inputs: Seq<ClearInput>,
    pub inputs: Seq<Input>,
    pub outputs: Seq<OutputV>,
}

impl View for MoneyTransferParamsV1 {
    type V = MoneyTransferParamsV1V;

    open spec fn view(&self) -> MoneyTransferParamsV1V {
        MoneyTransferParamsV1V {
            clear_inputs: self.clear_inputs@,
            inputs: self.inputs@,
            outputs: outputs_view(self.outputs@),
        }
    }
}

pub open spec fn enc_clear_inputs(vs: Seq<ClearInput>, i: int) -> Seq<u8>
    decreases vs.len() - i,
{
    if i < 0 || i >= vs.len() {
        Seq::empty()
    } else {
        vs[i].enc() + enc_clear_inputs(vs, i + 1)
    }
}

pub open spec fn enc_inputs(vs: Seq<Input>, i: int) -> Seq<u8>
    decreases vs.len() - i,
{
    if i < 0 || i >= vs.len() {
        Seq::empty()
    } else {
        vs[i].enc() + enc_inputs(vs, i + 1)
    }
}

pub open spec fn enc_outputs(vs: Seq<OutputV>, i: int) -> Seq<u8>
    decreases vs.len() - i,
{
    if i < 0 || i >= vs.len() {
        Seq::empty()
    } else {
        vs[i].enc() + enc_outputs(vs, i + 1)
    }
}

impl MoneyTransferParamsV1V {
    pub open spec fn wf(self) -> bool {
        (forall|q: int| 0 <= q < self.clear_inputs.len() ==> (#[trigger] self.clear_inputs[q]).wf())
            && (forall|q: int| 0 <= q < self.inputs.len() ==> (#[trigger] self.inputs[q]).wf()) && (
        forall|q: int| 0 <= q < self.outputs.len() ==> (#[trigger] self.outputs[q]).wf())
    }

    /// The encoding: three count-prefixed vectors.
    pub open spec fn enc(self) -> Seq<u8> {
        u64_le(self.clear_inputs.len() as u64) + enc_clear_inputs(self.clear_inputs, 0) + u64_le(
            self.inputs.len() as u64,
        ) + enc_inputs(self.inputs, 0) + u64_le(self.outputs.len() as u64) + enc_outputs(
            self.outputs,
            0,
        )
    }
}

impl MoneyTransferParamsV1 {
    /// Appends the encoding.
    pub fn encode(&self, out: &mut Vec<u8>)
        ensures
            final(out)@ == old(out)@ + self@.enc(),
    {
        push_u64_le(out, self.clear_inputs.len() as u64);
        let ghost m1 = out@;
        let mut k: usize = 0;
        while k < self.clear_inputs.len()
            invariant
                0 <= k <= self.clear_inputs@.len(),
                out@ == m1 + enc_clear_inputs(self.clear_inputs@.subrange(0, k as int), 0),
            decreases self.clear_inputs@.len() - k,
        {
            self.clear_inputs[k].encode(out);
            proof {
                lemma_enc_clear_inputs_snoc(self.clear_inputs@, k as int);
                assert(out@ =~= m1 + enc_clear_inputs(
                    self.clear_inputs@.subrange(0, k + 1),
                    0,
                ));
            }
            k = k + 1;
        }
        proof {
            assert(self.clear_inputs@.subrange(0, self.clear_inputs@.len() as int)
                =~= self.clear_inputs@);
        }
        push_u64_le(out, self.inputs.len() as u64);
        let ghost m2 = out@;
        let mut k: usize = 0;
        while k < self.inputs.len()
            invariant
                0 <= k <= self.inputs@.len(),
                out@ == m2 + enc_inputs(self.inputs@.subrange(0, k as int), 0),
            decreases self.inputs@.len() - k,
        {
            self.inputs[k].encode(out);
            proof {
                lemma_enc_inputs_snoc(self.inputs@, k as int);
                assert(out@ =~= m2 + enc_inputs(self.inputs@.subrange(0, k + 1), 0));
            }
            k = k + 1;
        }
        proof {
            assert(self.inputs@.subrange(0, self.inputs@.len() as int) =~= self.inputs@);
        }
        push_u64_le(out, self.outputs.len() as u64);
        let ghost m3 = out@;
        let mut k: usize = 0;
        while k < self.outputs.len()
            invariant
                0 <= k <= self.outputs@.len(),
                out@ == m3 + enc_outputs(outputs_view(self.outputs@).subrange(0, k as int), 0),
            decreases self.outputs@.len() - k,
        {
            self.outputs[k].encode(out);
            proof {
                lemma_enc_outputs_snoc(outputs_view(self.outputs@), k as int);
                assert(outputs_view(self.outputs@)[k as int] == self.outputs@[k as int]@);
                assert(out@ =~= m3 + enc_outputs(
                    outputs_view(self.outputs@).subrange(0, k + 1),
                    0,
                ));
            }
            k = k + 1;
        }
        proof {
            assert(outputs_view(self.outputs@).subrange(
                0,
                outputs_view(self.outputs@).len() as int,
            ) =~= outputs_view(self.outputs@));
            assert(out@ =~= old(out)@ + self@.enc());
        }
    }

    /// Parses transfer parameters at offset `i`.  A count larger than the
    /// buffer is malformed.
    pub open spec fn dec_at(s: Seq<u8>, i: int) -> Option<(MoneyTransferParamsV1V, int)> {
        match dec_u64_at(s, i) {
            None => None,
            Some((c1, j1)) => if c1 > s.len() {
                None
            } else {
                match dec_many_clear_inputs(s, j1, c1 as nat) {
                    None => None,
                    Some((clear_inputs, j2)) => match dec_u64_at(s, j2) {
                        None => None,
                        Some((c2, j3)) => if c2 > s.len() {
                            None
                        } else {
                            match dec_many_inputs(s, j3, c2 as nat) {
                                None => None,
                                Some((inputs, j4)) => match dec_u64_at(s, j4) {
                                    None => None,
                                    Some((c3, j5)) => if c3 > s.len() {
                                        None
                                    } else {
                                        match dec_many_outputs(s, j5, c3 as nat) {
                                            None => None,
                                            Some((outputs, j6)) => Some(
                                                (
                                                    MoneyTransferParamsV1V {
                                                        clear_inputs,
                                                        inputs,
                                                        outputs,
                                                    },
                                                    j6,
                                                ),
                                            ),
                                        }
                                    },
                                },
                            }
                        },
                    },
                }
            },
        }
    }

    /// Reads transfer parameters at offset `i`.
    pub fn decode(s: &Vec<u8>, i: usize) -> (r: Option<(MoneyTransferParamsV1, usize)>)
        ensures
            r is Some <==> MoneyTransferParamsV1::dec_at(s@, i as int) is Some,
            r is Some ==> {
                let (v, j) = MoneyTransferParamsV1::dec_at(s@, i as int)->Some_0;
                r->Some_0.0@ == v && r->Some_0.1 as int == j && v.wf()
            },
    {
        let (c1, j1) = match read_u64_at(s, i) {
            Some(v) => v,
            None => { return None },
        };
        if c1 > s.len() as u64 {
            return None;
        }
        let (clear_inputs, j2) = match decode_many_clear_inputs(s, j1, c1 as usize) {
            Some(v) => v,
            None => { return None },
        };
        let (c2, j3) = match read_u64_at(s, j2) {
            Some(v) => v,
            None => { return None },
        };
        if c2 > s.len() as u64 {
            return None;
        }
        let (inputs, j4) = match decode_many_inputs(s, j3, c2 as usize) {
            Some(v) => v,
            None => { return None },
        };
        let (c3, j5) = match read_u64_at(s, j4) {
            Some(v) => v,
            None => { return None },
        };
        if c3 > s.len() as u64 {
            return None;
        }
        let (outputs, j6) = match decode_many_outputs(s, j5, c3 as usize) {
            Some(v) => v,
            None => { return None },
        };
        Some((MoneyTransferParamsV1 { clear_inputs, inputs, outputs }, j6))
    }
}

proof fn lemma_enc_clear_inputs_snoc(vs: Seq<ClearInput>, k: int)
    requires
        0 <= k < vs.len(),
    ensures
        enc_clear_inputs(vs.subrange(0, k + 1), 0) == enc_clear_inputs(vs.subrange(0, k), 0)
            + vs[k].enc(),
    decreases k,
{
    let a = vs.subrange(0, k + 1);
    let b = vs.subrange(0, k);
    if k == 0 {
        assert(enc_clear_inputs(a, 0) =~= a[0].enc() + enc_clear_inputs(a, 1));
        assert(enc_clear_inputs(a, 1) =~= Seq::<u8>::empty());
        assert(enc_clear_inputs(b, 0) =~= Seq::<u8>::empty());
        assert(enc_clear_inputs(a, 0) =~= enc_clear_inputs(b, 0) + vs[k].enc());
    } else {
        let at = a.subrange(1, a.len() as int);
        let bt = b.subrange(1, b.len() as int);
        let vst = vs.subrange(1, vs.len() as int);
        assert(at =~= vst.subrange(0, k));
        assert(bt =~= vst.subrange(0, k - 1));
        lemma_enc_clear_inputs_snoc(vst, k - 1);
        lemma_enc_clear_inputs_shift(a);
        lemma_enc_clear_inputs_shift(b);
        assert(enc_clear_inputs(a, 0) =~= a[0].enc() + enc_clear_inputs(at, 0));
        assert(enc_clear_inputs(b, 0) =~= b[0].enc() + enc_clear_inputs(bt, 0));
        assert(vst[k - 1] == vs[k]);
        assert(enc_clear_inputs(a, 0) =~= enc_clear_inputs(b, 0) + vs[k].enc());
    }
}

proof fn lemma_enc_clear_inputs_shift(vs: Seq<ClearInput>)
    requires
        vs.len() > 0,
    ensures
        enc_clear_inputs(vs, 0) == vs[0].enc() + enc_clear_inputs(vs.subrange(1, vs.len() as int), 0),
    decreases vs.len(),
{
    let t = vs.subrange(1, vs.len() as int);
    lemma_enc_shift_gen_clear(vs, t, 1);
}

proof fn lemma_enc_shift_gen_clear(vs: Seq<ClearInput>, t: Seq<ClearInput>, i: int)
    requires
        1 <= i <= vs.len(),
        t == vs.subrange(1, vs.len() as int),
    ensures
        enc_clear_inputs(vs, i) == enc_clear_inputs(t, i - 1),
    decreases vs.len() - i,
{
    if i < vs.len() {
        lemma_enc_shift_gen_clear(vs, t, i + 1);
        assert(t[i - 1] == vs[i]);
    }
}

proof fn lemma_enc_inputs_snoc(vs: Seq<Input>, k: int)
    requires
        0 <= k < vs.len(),
    ensures
        enc_inputs(vs.subrange(0, k + 1), 0) == enc_inputs(vs.subrange(0, k), 0) + vs[k].enc(),
    decreases k,
{
    let a = vs.subrange(0, k + 1);
    let b = vs.subrange(0, k);
    if k == 0 {
        assert(enc_inputs(a, 0) =~= a[0].enc() + enc_inputs(a, 1));
        assert(enc_inputs(a, 1) =~= Seq::<u8>::empty());
        assert(enc_inputs(b, 0) =~= Seq::<u8>::empty());
        assert(enc_inputs(a, 0) =~= enc_inputs(b, 0) + vs[k].enc());
    } else {
        let at = a.subrange(1, a.len() as int);
        let bt = b.subrange(1, b.len() as int);
        let vst = vs.subrange(1, vs.len() as int);
        assert(at =~= vst.subrange(0, k));
        assert(bt =~= vst.subrange(0, k - 1));
        lemma_enc_inputs_snoc(vst, k - 1);
        lemma_enc_inputs_shift(a);
        lemma_enc_inputs_shift(b);
        assert(enc_inputs(a, 0) =~= a[0].enc() + enc_inputs(at, 0));
        assert(enc_inputs(b, 0) =~= b[0].enc() + enc_inputs(bt, 0));
        assert(vst[k - 1] == vs[k]);
        assert(enc_inputs(a, 0) =~= enc_inputs(b, 0) + vs[k].enc());
    }
}

proof fn lemma_enc_inputs_shift(vs: Seq<Input>)
    requires
        vs.len() > 0,
    ensures
        enc_inputs(vs, 0) == vs[0].enc() + enc_inputs(vs.subrange(1, vs.len() as int), 0),
    decreases vs.len(),
{
    let t = vs.subrange(1, vs.len() as int);
    lemma_enc_shift_gen_inputs(vs, t, 1);
}

proof fn lemma_enc_shift_gen_inputs(vs: Seq<Input>, t: Seq<Input>, i: int)
    requires
        1 <= i <= vs.len(),
        t == vs.subrange(1, vs.len() as int),
    ensures
        enc_inputs(vs, i) == enc_inputs(t, i - 1),
    decreases vs.len() - i,
{
    if i < vs.len() {
        lemma_enc_shift_gen_inputs(vs, t, i + 1);
        assert(t[i - 1] == vs[i]);
    }
}

proof fn lemma_enc_outputs_snoc(vs: Seq<OutputV>, k: int)
    requires
        0 <= k < vs.len(),
    ensures
        enc_outputs(vs.subrange(0, k + 1), 0) == enc_outputs(vs.subrange(0, k), 0) + vs[k].enc(),
    decreases k,
{
    let a = vs.subrange(0, k + 1);
    let b = vs.subrange(0, k);
    if k == 0 {
        assert(enc_outputs(a, 0) =~= a[0].enc() + enc_outputs(a, 1));
        assert(enc_outputs(a, 1) =~= Seq::<u8>::empty());
        assert(enc_outputs(b, 0) =~= Seq::<u8>::empty());
        assert(enc_outputs(a, 0) =~= enc_outputs(b, 0) + vs[k].enc());
    } else {
        let at = a.subrange(1, a.len() as int);
        let bt = b.subrange(1, b.len() as int);
        let vst = vs.subrange(1, vs.len() as int);
        assert(at =~= vst.subrange(0, k));
        assert(bt =~= vst.subrange(0, k - 1));
        lemma_enc_outputs_snoc(vst, k - 1);
        lemma_enc_outputs_shift(a);
        lemma_enc_outputs_shift(b);
        assert(enc_outputs(a, 0) =~= a[0].enc() + enc_outputs(at, 0));
        assert(enc_outputs(b, 0) =~= b[0].enc() + enc_outputs(bt, 0));
        assert(vst[k - 1] == vs[k]);
        assert(enc_outputs(a, 0) =~= enc_outputs(b, 0) + vs[k].enc());
    }
}

proof fn lemma_enc_outputs_shift(vs: Seq<OutputV>)
    requires
        vs.len() > 0,
    ensures
        enc_outputs(vs, 0) == vs[0].enc() + enc_outputs(vs.subrange(1, vs.len() as int), 0),
    decreases vs.len(),
{
    let t = vs.subrange(1, vs.len() as int);
    lemma_enc_shift_gen_outputs(vs, t, 1);
}

proof fn lemma_enc_shift_gen_outputs(vs: Seq<OutputV>, t: Seq<OutputV>, i: int)
    requires
        1 <= i <= vs.len(),
        t == vs.subrange(1, vs.len() as int),
    ensures
        enc_outputs(vs, i) == enc_outputs(t, i - 1),
    decreases vs.len() - i,
{
    if i < vs.len() {
        lemma_enc_shift_gen_outputs(vs, t, i + 1);
        assert(t[i - 1] == vs[i]);
    }
}

// ---------------------------------------------------------------------------
// Unstake parameters and state updates.
// ---------------------------------------------------------------------------

/// Parameters of the money half of an unstake: the staked input being
/// released, the blind its token commitment opens with, and the fresh
/// anonymous output.
#[derive(Debug)]
pub struct MoneyUnstakeParamsV1 {
    pub input: Input,
    pub token_blind: Scalar,
    pub spend_hook: Base,
    pub output: Output,
}

/// The mathematical contents of [`MoneyUnstakeParamsV1`].
pub struct MoneyUnstakeParamsV1V {
    pub input: Input,
    pub token_blind: Scalar,
    pub spend_hook: Base,
    pub output: OutputV,
}

impl View for MoneyUnstakeParamsV1 {
    type V = MoneyUnstakeParamsV1V;

    open spec fn view(&self) -> MoneyUnstakeParamsV1V {
        MoneyUnstakeParamsV1V {
            input: self.input,
            token_blind: self.token_blind,
            spend_hook: self.spend_hook,
            output: self.output@,
        }
    }
}

impl MoneyUnstakeParamsV1V {
    pub open spec fn wf(self) -> bool {
        self.input.wf() && self.token_blind.wf() && self.spend_hook.wf() && self.output.wf()
    }

    pub open spec fn enc(self) -> Seq<u8> {
        self.input.enc() + self.token_blind.enc() + self.spend_hook.enc() + self.output.enc()
    }
}

impl MoneyUnstakeParamsV1 {
    /// Appends the encoding.
    pub fn encode(&self, out: &mut Vec<u8>)
        ensures
            final(out)@ == old(out)@ + self@.enc(),
    {
        self.input.encode(out);
        self.token_blind.encode(out);
        self.spend_hook.encode(out);
        self.output.encode(out);
        proof {
            assert(out@ =~= old(out)@ + self@.enc());
        }
    }

    /// Parses unstake parameters at offset `i`.
    pub open spec fn dec_at(s: Seq<u8>, i: int) -> Option<(MoneyUnstakeParamsV1V, int)> {
        match Input::dec_at(s, i) {
            None => None,
            Some((input, j1)) => match Scalar::dec_at(s, j1) {
                None => None,
                Some((token_blind, j2)) => match Base::dec_at(s, j2) {
                    None => None,
                    Some((spend_hook, j3)) => match Output::dec_at(s, j3) {
                        None => None,
                        Some((output, j4)) => Some(
                            (MoneyUnstakeParamsV1V { input, token_blind, spend_hook, output }, j4),
                        ),
                    },
                },
            },
        }
    }

    /// Reads unstake parameters at offset `i`.
    pub fn decode(s: &Vec<u8>, i: usize) -> (r: Option<(MoneyUnstakeParamsV1, usize)>)
        ensures
            r is Some <==> MoneyUnstakeParamsV1::dec_at(s@, i as int) is Some,
            r is Some ==> {
                let (v, j) = MoneyUnstakeParamsV1::dec_at(s@, i as int)->Some_0;
                r->Some_0.0@ == v && r->Some_0.1 as int == j && v.wf()
            },
    {
        let (input, j1) = match Input::decode(s, i) {
            Some(v) => v,
            None => { return None },
        };
        let (token_blind, j2) = match Scalar::decode(s, j1) {
            Some(v) => v,
            None => { return None },
        };
        let (spend_hook, j3) = match Base::decode(s, j2) {
            Some(v) => v,
            None => { return None },
        };
        let (output, j4) = match Output::decode(s, j3) {
            Some(v) => v,
            None => { return None },
        };
        Some((MoneyUnstakeParamsV1 { input, token_blind, spend_hook, output }, j4))
    }
}

/// Parameters of the consensus half of an unstake.
#[derive(Clone, Copy, PartialEq, Eq, Structural, Debug)]
pub struct ConsensusUnstakeParamsV1 {
    pub token_blind: Scalar,
    pub input: Input,
}

impl ConsensusUnstakeParamsV1 {
    pub open spec fn wf(self) -> bool {
        self.token_blind.wf() && self.input.wf()
    }

    pub open spec fn enc(self) -> Seq<u8> {
        self.token_blind.enc() + self.input.enc()
    }

    /// Appends the encoding.
    pub fn encode(&self, out: &mut Vec<u8>)
        ensures
            final(out)@ == old(out)@ + self.enc(),
    {
        self.token_blind.encode(out);
        self.input.encode(out);
        proof {
            assert(out@ =~= old(out)@ + self.enc());
        }
    }

    /// Parses consensus unstake parameters at offset `i`.
    pub open spec fn dec_at(s: Seq<u8>, i: int) -> Option<(ConsensusUnstakeParamsV1, int)> {
        match Scalar::dec_at(s, i) {
            None => None,
            Some((token_blind, j1)) => match Input::dec_at(s, j1) {
                None => None,
                Some((input, j2)) => Some((ConsensusUnstakeParamsV1 { token_blind, input }, j2)),
            },
        }
    }

    /// Reads consensus unstake parameters at offset `i`.
    pub fn decode(s: &Vec<u8>, i: usize) -> (r: Option<(ConsensusUnstakeParamsV1, usize)>)
        ensures
            r is Some <==> ConsensusUnstakeParamsV1::dec_at(s@, i as int) is Some,
            r is Some ==> Some((r->Some_0.0, r->Some_0.1 as int))
                == ConsensusUnstakeParamsV1::dec_at(s@, i as int) && r->Some_0.0.wf(),
    {
        let (token_blind, j1) = match Scalar::decode(s, i) {
            Some(v) => v,
            None => { return None },
        };
        let (input, j2) = match Input::decode(s, j1) {
            Some(v) => v,
            None => { return None },
        };
        Some((ConsensusUnstakeParamsV1 { token_blind, input }, j2))
    }
}

/// Parameters of the consensus half of a stake.
#[derive(Debug)]
pub struct ConsensusStakeParamsV1 {
    pub input: StakeInput,
    pub output: Output,
}

/// Parameters of a consensus reward call.
#[derive(Debug)]
pub struct ConsensusRewardParamsV1 {
    /// Anonymous input of the unstake half.
    pub unstake_input: Input,
    /// Burnt token revealed info of the stake half.
    pub stake_input: StakeInput,
    /// Anonymous output.
    pub output: Output,
}

/// State update for a consensus reward call: the reward changes no table.
#[derive(Clone, Copy, PartialEq, Eq, Structural, Debug)]
pub struct ConsensusRewardUpdateV1 {}

/// State update of a money unstake: the one new coin.
#[derive(Clone, Copy, PartialEq, Eq, Structural, Debug)]
pub struct MoneyUnstakeUpdateV1 {
    pub coin: Base,
}

impl MoneyUnstakeUpdateV1 {
    pub open spec fn enc(self) -> Seq<u8> {
        self.coin.enc()
    }

    /// Appends the encoding.
    pub fn encode(&self, out: &mut Vec<u8>)
        ensures
            final(out)@ == old(out)@ + self.enc(),
    {
        self.coin.encode(out);
    }

    /// Parses the update at offset `i`.
    pub open spec fn dec_at(s: Seq<u8>, i: int) -> Option<(MoneyUnstakeUpdateV1, int)> {
        match Base::dec_at(s, i) {
            None => None,
            Some((coin, j)) => Some((MoneyUnstakeUpdateV1 { coin }, j)),
        }
    }

    /// Reads the update at offset `i`.
    pub fn decode(s: &Vec<u8>, i: usize) -> (r: Option<(MoneyUnstakeUpdateV1, usize)>)
        ensures
            r is Some <==> MoneyUnstakeUpdateV1::dec_at(s@, i as int) is Some,
            r is Some ==> Some((r->Some_0.0, r->Some_0.1 as int)) == MoneyUnstakeUpdateV1::dec_at(
                s@,
                i as int,
            ) && r->Some_0.0.coin.wf(),
    {
        let (coin, j) = match Base::decode(s, i) {
            Some(v) => v,
            None => { return None },
        };
        Some((MoneyUnstakeUpdateV1 { coin }, j))
    }
}

/// State update of a money transfer: the spent nullifiers and the new coins.
#[derive(Debug)]
pub struct MoneyTransferUpdateV1 {
    pub nullifiers: Vec<Base>,
    pub coins: Vec<Base>,
}

/// The mathematical contents of [`MoneyTransferUpdateV1`].
pub struct MoneyTransferUpdateV1V {
    pub nullifiers: Seq<Base>,
    pub coins: Seq<Base>,
}

impl View for MoneyTransferUpdateV1 {
    type V = MoneyTransferUpdateV1V;

    open spec fn view(&self) -> MoneyTransferUpdateV1V {
        MoneyTransferUpdateV1V { nullifiers: self.nullifiers@, coins: self.coins@ }
    }
}

pub open spec fn enc_bases(vs: Seq<Base>, i: int) -> Seq<u8>
    decreases vs.len() - i,
{
    if i < 0 || i >= vs.len() {
        Seq::empty()
    } else {
        vs[i].enc() + enc_bases(vs, i + 1)
    }
}

proof fn lemma_enc_bases_snoc(vs: Seq<Base>, k: int)
    requires
        0 <= k < vs.len(),
    ensures
        enc_bases(vs.subrange(0, k + 1), 0) == enc_bases(vs.subrange(0, k), 0) + vs[k].enc(),
    decreases k,
{
    let a = vs.subrange(0, k + 1);
    let b = vs.subrange(0, k);
    if k == 0 {
        assert(enc_bases(a, 0) =~= a[0].enc() + enc_bases(a, 1));
        assert(enc_bases(a, 1) =~= Seq::<u8>::empty());
        assert(enc_bases(b, 0) =~= Seq::<u8>::empty());
        assert(enc_bases(a, 0) =~= enc_bases(b, 0) + vs[k].enc());
    } else {
        let at = a.subrange(1, a.len() as int);
        let bt = b.subrange(1, b.len() as int);
        let vst = vs.subrange(1, vs.len() as int);
        assert(at =~= vst.subrange(0, k));
        assert(bt =~= vst.subrange(0, k - 1));
        lemma_enc_bases_snoc(vst, k - 1);
        lemma_enc_bases_shift(a);
        lemma_enc_bases_shift(b);
        assert(enc_bases(a, 0) =~= a[0].enc() + enc_bases(at, 0));
        assert(enc_bases(b, 0) =~= b[0].enc() + enc_bases(bt, 0));
        assert(vst[k - 1] == vs[k]);
        assert(enc_bases(a, 0) =~= enc_bases(b, 0) + vs[k].enc());
    }
}

proof fn lemma_enc_bases_shift(vs: Seq<Base>)
    requires
        vs.len() > 0,
    ensures
        enc_bases(vs, 0) == vs[0].enc() + enc_bases(vs.subrange(1, vs.len() as int), 0),
    decreases vs.len(),
{
    let t = vs.subrange(1, vs.len() as int);
    lemma_enc_shift_gen_bases(vs, t, 1);
}

proof fn lemma_enc_shift_gen_bases(vs: Seq<Base>, t: Seq<Base>, i: int)
    requires
        1 <= i <= vs.len(),
        t == vs.subrange(1, vs.len() as int),
    ensures
        enc_bases(vs, i) == enc_bases(t, i - 1),
    decreases vs.len() - i,
{
    if i < vs.len() {
        lemma_enc_shift_gen_bases(vs, t, i + 1);
        assert(t[i - 1] == vs[i]);
    }
}

/// Appending one element extends a base-sequence encoding by its encoding.
pub proof fn lemma_enc_bases_snoc_pub(vs: Seq<Base>, k: int)
    requires
        0 <= k < vs.len(),
    ensures
        enc_bases(vs.subrange(0, k + 1), 0) == enc_bases(vs.subrange(0, k), 0) + vs[k].enc(),
{
    lemma_enc_bases_snoc(vs, k);
}

impl MoneyTransferUpdateV1V {
    pub open spec fn enc(self) -> Seq<u8> {
        u64_le(self.nullifiers.len() as u64) + enc_bases(self.nullifiers, 0) + u64_le(
            self.coins.len() as u64,
        ) + enc_bases(self.coins, 0)
    }

    pub open spec fn wf(self) -> bool {
        (forall|q: int| 0 <= q < self.nullifiers.len() ==> (#[trigger] self.nullifiers[q]).wf())
            && (forall|q: int| 0 <= q < self.coins.len() ==> (#[trigger] self.coins[q]).wf())
    }
}

impl MoneyTransferUpdateV1 {
    /// Appends the encoding.
    pub fn encode(&self, out: &mut Vec<u8>)
        ensures
            final(out)@ == old(out)@ + self@.enc(),
    {
        push_u64_le(out, self.nullifiers.len() as u64);
        let ghost m1 = out@;
        let mut k: usize = 0;
        while k < self.nullifiers.len()
            invariant
                0 <= k <= self.nullifiers@.len(),
                out@ == m1 + enc_bases(self.nullifiers@.subrange(0, k as int), 0),
            decreases self.nullifiers@.len() - k,
        {
            self.nullifiers[k].encode(out);
            proof {
                lemma_enc_bases_snoc(self.nullifiers@, k as int);
                assert(out@ =~= m1 + enc_bases(self.nullifiers@.subrange(0, k + 1), 0));
            }
            k = k + 1;
        }
        proof {
            assert(self.nullifiers@.subrange(0, self.nullifiers@.len() as int)
                =~= self.nullifiers@);
        }
        push_u64_le(out, self.coins.len() as u64);
        let ghost m2 = out@;
        let mut k: usize = 0;
        while k < self.coins.len()
            invariant
                0 <= k <= self.coins@.len(),
                out@ == m2 + enc_bases(self.coins@.subrange(0, k as int), 0),
            decreases self.coins@.len() - k,
        {
            self.coins[k].encode(out);
            proof {
                lemma_enc_bases_snoc(self.coins@, k as int);
                assert(out@ =~= m2 + enc_bases(self.coins@.subrange(0, k + 1), 0));
            }
            k = k + 1;
        }
        proof {
            assert(self.coins@.subrange(0, self.coins@.len() as int) =~= self.coins@);
            assert(out@ =~= old(out)@ + self@.enc());
        }
    }

    /// Parses the update at offset `i`.
    pub open spec fn dec_at(s: Seq<u8>, i: int) -> Option<(MoneyTransferUpdateV1V, int)> {
        match dec_u64_at(s, i) {
            None => None,
            Some((c1, j1)) => if c1 > s.len() {
                None
            } else {
                match dec_many_bases(s, j1, c1 as nat) {
                    None => None,
                    Some((nullifiers, j2)) => match dec_u64_at(s, j2) {
                        None => None,
                        Some((c2, j3)) => if c2 > s.len() {
                            None
                        } else {
                            match dec_many_bases(s, j3, c2 as nat) {
                                None => None,
                                Some((coins, j4)) => Some(
                                    (MoneyTransferUpdateV1V { nullifiers, coins }, j4),
                                ),
                            }
                        },
                    },
                }
            },
        }
    }

    /// Reads the update at offset `i`.
    pub fn decode(s: &Vec<u8>, i: usize) -> (r: Option<(MoneyTransferUpdateV1, usize)>)
        ensures
            r is Some <==> MoneyTransferUpdateV1::dec_at(s@, i as int) is Some,
            r is Some ==> {
                let (v, j) = MoneyTransferUpdateV1::dec_at(s@, i as int)->Some_0;
                r->Some_0.0@ == v && r->Some_0.1 as int == j && v.wf()
            },
    {
        let (c1, j1) = match read_u64_at(s, i) {
            Some(v) => v,
            None => { return None },
        };
        if c1 > s.len() as u64 {
            return None;
        }
        let (nullifiers, j2) = match decode_many_bases(s, j1, c1 as usize) {
            Some(v) => v,
            None => { return None },
        };
        let (c2, j3) = match read_u64_at(s, j2) {
            Some(v) => v,
            None => { return None },
        };
        if c2 > s.len() as u64 {
            return None;
        }
        let (coins, j4) = match decode_many_bases(s, j3, c2 as usize) {
            Some(v) => v,
            None => { return None },
        };
        Some((MoneyTransferUpdateV1 { nullifiers, coins }, j4))
    }
}

// ---------------------------------------------------------------------------
// Function dispatch and errors.
// ---------------------------------------------------------------------------

/// The functions of the money contract.  Each stands for one discriminant
/// byte; the mapping is a bijection and unknown bytes are rejected.
#[derive(Clone, Copy, PartialEq, Eq, Structural, Debug)]
pub enum MoneyFunction {
    TransferV1,
    OtcSwapV1,
    MintV1,
    FreezeV1,
    StakeV1,
    UnstakeV1,
}

impl MoneyFunction {
    /// The discriminant byte of each function.
    pub open spec fn disc(self) -> u8 {
        match self {
            MoneyFunction::TransferV1 => 0x00,
            MoneyFunction::OtcSwapV1 => 0x01,
            MoneyFunction::MintV1 => 0x02,
            MoneyFunction::FreezeV1 => 0x03,
            MoneyFunction::StakeV1 => 0x05,
            MoneyFunction::UnstakeV1 => 0x06,
        }
    }

    /// The function a byte stands for, if any.
    pub open spec fn from_disc(b: u8) -> Option<MoneyFunction> {
        if b == 0x00 {
            Some(MoneyFunction::TransferV1)
        } else if b == 0x01 {
            Some(MoneyFunction::OtcSwapV1)
        } else if b == 0x02 {
            Some(MoneyFunction::MintV1)
        } else if b == 0x03 {
            Some(MoneyFunction::FreezeV1)
        } else if b == 0x05 {
            Some(MoneyFunction::StakeV1)
        } else if b == 0x06 {
            Some(MoneyFunction::UnstakeV1)
        } else {
            None
        }
    }

    /// The discriminant byte.
    pub fn to_u8(self) -> (r: u8)
        ensures
            r == self.disc(),
    {
        match self {
            MoneyFunction::TransferV1 => 0x00,
            MoneyFunction::OtcSwapV1 => 0x01,
            MoneyFunction::MintV1 => 0x02,
            MoneyFunction::FreezeV1 => 0x03,
            MoneyFunction::StakeV1 => 0x05,
            MoneyFunction::UnstakeV1 => 0x06,
        }
    }

    /// Dispatch on a discriminant byte; an unknown byte is rejected.
    pub fn try_from(b: u8) -> (r: Result<MoneyFunction, ContractError>)
        ensures
            r is Ok <==> MoneyFunction::from_disc(b) is Some,
            r is Ok ==> Some(r->Ok_0) == MoneyFunction::from_disc(b),
            r is Err ==> r->Err_0 == ContractError::InvalidFunction,
    {
        match b {
            0x00 => Ok(MoneyFunction::TransferV1),
            0x01 => Ok(MoneyFunction::OtcSwapV1),
            0x02 => Ok(MoneyFunction::MintV1),
            0x03 => Ok(MoneyFunction::FreezeV1),
            0x05 => Ok(MoneyFunction::StakeV1),
            0x06 => Ok(MoneyFunction::UnstakeV1),
            _ => Err(ContractError::InvalidFunction),
        }
    }
}

/// The byte-to-function mapping is a bijection: decoding a function's byte
/// gives the function back, and any byte that decodes re-encodes to itself.
pub proof fn lemma_money_function_bijection()
    ensures
        forall|f: MoneyFunction| MoneyFunction::from_disc(#[trigger] f.disc()) == Some(f),
        forall|b: u8|
            (#[trigger] MoneyFunction::from_disc(b)) is Some ==> MoneyFunction::from_disc(
                b,
            )->Some_0.disc() == b,
{
}

/// Validation errors of the money contract, one per violated invariant.
#[derive(Clone, Copy, PartialEq, Eq, Structural, Debug)]
pub enum MoneyError {
    /// A transfer call had neither clear nor anonymous inputs.
    TransferMissingInputs,
    /// A transfer call had no outputs.
    TransferMissingOutputs,
    /// An input's membership root is not in the root history.
    TransferMerkleRootNotFound,
    /// An input's nullifier was already recorded.
    DuplicateNullifier,
    /// An output's coin was already recorded.
    DuplicateCoin,
    /// The commitment algebra does not balance.
    ValueMismatch,
    /// The token commitments do not agree.
    TokenMismatch,
    /// A staking call used a token other than the native one.
    StakeInputNonNativeToken,
    /// The companion call demanded by a spend hook is out of bounds.
    SpendHookOutOfBounds,
    /// The companion call's contract does not match the spend hook.
    SpendHookMismatch,
    /// The call before an unstake is not the consensus contract.
    UnstakePreviousCallNotConsensusContract,
    /// The call before an unstake is not of the expected function.
    PreviousCallFunctionMismatch,
    /// The call before an unstake reports a different input.
    PreviousCallInputMismatch,
}

/// Errors surfaced by the call pipeline.
#[derive(Clone, Copy, PartialEq, Eq, Structural, Debug)]
pub enum ContractError {
    /// An unknown function discriminant.
    InvalidFunction,
    /// Malformed call or update bytes.
    DecodeFailed,
    /// A call index outside the call list.
    CallIndexOutOfBounds,
    /// A validation error of the money contract.
    Money(MoneyError),
}

/// One call of a transaction: the target contract, the function
/// discriminant, and the serialized parameters.
#[derive(Debug)]
pub struct ContractCall {
    pub contract_id: Base,
    pub func: u8,
    pub params: Vec<u8>,
}

/// The mathematical contents of a [`ContractCall`].
pub struct ContractCallV {
    pub contract_id: Base,
    pub func: u8,
    pub params: Seq<u8>,
}

impl View for ContractCall {
    type V = ContractCallV;

    open spec fn view(&self) -> ContractCallV {
        ContractCallV { contract_id: self.contract_id, func: self.func, params: self.params@ }
    }
}

/// The views of a call list.
pub open spec fn calls_view(calls: Seq<ContractCall>) -> Seq<ContractCallV> {
    calls.map_values(|c: ContractCall| c@)
}

impl Note {
    /// A field-for-field copy.
    pub fn clone_note(&self) -> (r: Note)
        ensures
            r@ == self@,
    {
        let mut memo: Vec<u8> = Vec::new();
        let mut k: usize = 0;
        while k < self.memo.len()
            invariant
                0 <= k <= self.memo@.len(),
                memo@ == self.memo@.subrange(0, k as int),
            decreases self.memo@.len() - k,
        {
            memo.push(self.memo[k]);
            proof {
                assert(memo@ =~= self.memo@.subrange(0, k + 1));
            }
            k = k + 1;
        }
        proof {
            assert(self.memo@.subrange(0, self.memo@.len() as int) =~= self.memo@);
        }
        Note {
            serial: self.serial,
            value: self.value,
            token_id: self.token_id,
            spend_hook: self.spend_hook,
            user_data: self.user_data,
            coin_blind: self.coin_blind,
            value_blind: self.value_blind,
            token_blind: self.token_blind,
            memo,
        }
    }
}

} // verus!
