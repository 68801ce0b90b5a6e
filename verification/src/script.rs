//! Classification of output scripts by the payload they commit to.

use vstd::prelude::*;
use crate::types::{items_view, Script};

verus! {

/// What a script's payload is in contracts.
pub enum PayloadView {
    /// Pay to the hash of a public key.
    PubkeyHash(Seq<u8>),
    /// Pay to the hash of a script.
    ScriptHash(Seq<u8>),
    /// A witness program of the given version.
    WitnessProgram { version: u8, program: Seq<u8> },
    /// Any other script.
    Bare,
}

/// The payload that a script commits to.
#[derive(Clone, Debug)]
pub enum Payload {
    PubkeyHash { pubkey_hash: Vec<u8> },
    ScriptHash { script_hash: Vec<u8> },
    WitnessProgram { version: u8, program: Vec<u8> },
    Bare,
}

impl View for Payload {
    type V = PayloadView;

    open spec fn view(&self) -> PayloadView {
        match self {
            Payload::PubkeyHash { pubkey_hash } => PayloadView::PubkeyHash(pubkey_hash@),
            Payload::ScriptHash { script_hash } => PayloadView::ScriptHash(script_hash@),
            Payload::WitnessProgram { version, program } => PayloadView::WitnessProgram {
                version: *version,
                program: program@,
            },
            Payload::Bare => PayloadView::Bare,
        }
    }
}

/// `OP_DUP OP_HASH160 <20 bytes> OP_EQUALVERIFY OP_CHECKSIG`.
pub open spec fn is_p2pkh(s: Seq<u8>) -> bool {
    s.len() == 25 && s[0] == 0x76 && s[1] == 0xa9 && s[2] == 0x14 && s[23] == 0x88 && s[24]
        == 0xac
}

/// `OP_HASH160 <20 bytes> OP_EQUAL`.
pub open spec fn is_p2sh(s: Seq<u8>) -> bool {
    s.len() == 23 && s[0] == 0xa9 && s[1] == 0x14 && s[22] == 0x87
}

/// A version opcode followed by one push of 2 to 40 bytes that ends the script.
pub open spec fn is_witness_program(s: Seq<u8>) -> bool {
    4 <= s.len() <= 42 && (s[0] == 0 || 0x51 <= s[0] <= 0x60) && s[1] as int == s.len() - 2
}

/// A script that starts with `OP_RETURN`.
pub open spec fn is_op_return(s: Seq<u8>) -> bool {
    s.len() >= 1 && s[0] == 0x6a
}

/// The witness version that a version opcode stands for.
pub open spec fn witness_version(opcode: u8) -> u8 {
    if opcode == 0 {
        0
    } else {
        (opcode - 0x50) as u8
    }
}

/// The payload of script `s`.
pub open spec fn classify(s: Seq<u8>) -> PayloadView {
    if is_p2pkh(s) {
        PayloadView::PubkeyHash(s.subrange(3, 23))
    } else if is_p2sh(s) {
        PayloadView::ScriptHash(s.subrange(2, 22))
    } else if is_witness_program(s) {
        PayloadView::WitnessProgram {
            version: witness_version(s[0]),
            program: s.subrange(2, s.len() as int),
        }
    } else {
        PayloadView::Bare
    }
}

/// The bytes of `v` from `from` up to `to`.
pub(crate) fn slice_bytes(v: &Vec<u8>, from: usize, to: usize) -> (r: Vec<u8>)
    requires
        from <= to <= v.len(),
    ensures
        r@ == v@.subrange(from as int, to as int),
{
    let mut r: Vec<u8> = Vec::new();
    let mut i: usize = from;
    while i < to
        invariant
            from <= i <= to <= v.len(),
            r@ == v@.subrange(from as int, i as int),
        decreases to - i,
    {
        r.push(v[i]);
        assert(v@.subrange(from as int, i + 1) =~= v@.subrange(from as int, i as int).push(
            v@[i as int],
        ));
        i += 1;
    }
    r
}

impl Script {
    /// Whether the script pays to the hash of a public key.
    pub fn is_p2pkh(&self) -> (r: bool)
        ensures
            r == is_p2pkh(self@),
    {
        let s = &self.bytes;
        s.len() == 25 && s[0] == 0x76 && s[1] == 0xa9 && s[2] == 0x14 && s[23] == 0x88 && s[24]
            == 0xac
    }

    /// Whether the script pays to the hash of a script.
    pub fn is_p2sh(&self) -> (r: bool)
        ensures
            r == is_p2sh(self@),
    {
        let s = &self.bytes;
        s.len() == 23 && s[0] == 0xa9 && s[1] == 0x14 && s[22] == 0x87
    }

    /// Whether the script is a witness program.
    pub fn is_witness_program(&self) -> (r: bool)
        ensures
            r == is_witness_program(self@),
    {
        let s = &self.bytes;
        if s.len() < 4 || s.len() > 42 {
            return false;
        }
        let push: usize = s.len() - 2;
        (s[0] == 0 || (0x51 <= s[0] && s[0] <= 0x60)) && s[1] as usize == push
    }

    /// Whether the script is provably unspendable data.
    pub fn is_op_return(&self) -> (r: bool)
        ensures
            r == is_op_return(self@),
    {
        self.bytes.len() >= 1 && self.bytes[0] == 0x6a
    }

    /// The payload that the script commits to.
    pub fn payload(&self) -> (r: Payload)
        ensures
            r@ == classify(self@),
    {
        if self.is_p2pkh() {
            Payload::PubkeyHash { pubkey_hash: slice_bytes(&self.bytes, 3, 23) }
        } else if self.is_p2sh() {
            Payload::ScriptHash { script_hash: slice_bytes(&self.bytes, 2, 22) }
        } else if self.is_witness_program() {
            let opcode: u8 = self.bytes[0];
            let version: u8 = if opcode == 0 {
                0
            } else {
                opcode - 0x50
            };
            Payload::WitnessProgram {
                version,
                program: slice_bytes(&self.bytes, 2, self.bytes.len()),
            }
        } else {
            Payload::Bare
        }
    }
}

/// The script that commits to `payload`: the inverse of `classify` on the
/// three recognised forms.
pub open spec fn script_of(payload: PayloadView) -> Seq<u8> {
    match payload {
        PayloadView::PubkeyHash(h) => seq![0x76u8, 0xa9u8, 0x14u8] + h + seq![0x88u8, 0xacu8],
        PayloadView::ScriptHash(h) => seq![0xa9u8, 0x14u8] + h + seq![0x87u8],
        PayloadView::WitnessProgram { version, program } => seq![
            if version == 0 { 0u8 } else { (version + 0x50) as u8 },
            program.len() as u8,
        ] + program,
        PayloadView::Bare => Seq::empty(),
    }
}

/// Whether `payload` is one that a standard script can carry.
pub open spec fn payload_wf(payload: PayloadView) -> bool {
    match payload {
        PayloadView::PubkeyHash(h) => h.len() == 20,
        PayloadView::ScriptHash(h) => h.len() == 20,
        PayloadView::WitnessProgram { version, program } => version <= 16 && 2 <= program.len()
            <= 40,
        PayloadView::Bare => false,
    }
}

impl Payload {
    /// The script that commits to this payload, if it is one that a standard
    /// script can carry.
    pub fn script_pubkey(&self) -> (r: Option<Script>)
        ensures
            r is Some == payload_wf(self@),
            r is Some ==> r->0@ == script_of(self@),
    {
        match self {
            Payload::PubkeyHash { pubkey_hash } => {
                if pubkey_hash.len() != 20 {
                    return None;
                }
                let mut b: Vec<u8> = Vec::new();
                b.push(0x76);
                b.push(0xa9);
                b.push(0x14);
                let ghost head = b@;
                append_bytes(&mut b, pubkey_hash);
                b.push(0x88);
                b.push(0xac);
                assert(b@ =~= seq![0x76u8, 0xa9u8, 0x14u8] + pubkey_hash@ + seq![0x88u8, 0xacu8]);
                Some(Script { bytes: b })
            },
            Payload::ScriptHash { script_hash } => {
                if script_hash.len() != 20 {
                    return None;
                }
                let mut b: Vec<u8> = Vec::new();
                b.push(0xa9);
                b.push(0x14);
                append_bytes(&mut b, script_hash);
                b.push(0x87);
                assert(b@ =~= seq![0xa9u8, 0x14u8] + script_hash@ + seq![0x87u8]);
                Some(Script { bytes: b })
            },
            Payload::WitnessProgram { version, program } => {
                if *version > 16 || program.len() < 2 || program.len() > 40 {
                    return None;
                }
                let opcode: u8 = if *version == 0 {
                    0
                } else {
                    *version + 0x50
                };
                let mut b: Vec<u8> = Vec::new();
                b.push(opcode);
                b.push(program.len() as u8);
                append_bytes(&mut b, program);
                assert(b@ =~= seq![opcode, program.len() as u8] + program@);
                Some(Script { bytes: b })
            },
            Payload::Bare => None,
        }
    }
}

/// Appends the bytes of `tail` to `v`.
pub fn append_bytes(v: &mut Vec<u8>, tail: &Vec<u8>)
    ensures
        final(v)@ == old(v)@ + tail@,
{
    let mut i: usize = 0;
    while i < tail.len()
        invariant
            i <= tail.len(),
            v@ == old(v)@ + tail@.take(i as int),
        decreases tail.len() - i,
    {
        v.push(tail[i]);
        assert(tail@.take(i + 1) =~= tail@.take(i as int).push(tail@[i as int]));
        assert(v@ =~= old(v)@ + tail@.take(i + 1));
        i += 1;
    }
    assert(tail@.take(tail.len() as int) =~= tail@);
}

/// A standard payload is what its script classifies as.
pub proof fn lemma_classify_script_of(payload: PayloadView)
    requires
        payload_wf(payload),
    ensures
        classify(script_of(payload)) == payload,
{
    let s = script_of(payload);
    match payload {
        PayloadView::PubkeyHash(h) => {
            assert(s.len() == 25);
            assert(is_p2pkh(s));
            assert(s.subrange(3, 23) =~= h);
        },
        PayloadView::ScriptHash(h) => {
            assert(s.len() == 23);
            assert(!is_p2pkh(s));
            assert(is_p2sh(s));
            assert(s.subrange(2, 22) =~= h);
        },
        PayloadView::WitnessProgram { version, program } => {
            assert(s.len() == program.len() + 2);
            assert(s[1] as int == program.len());
            assert(s[0] == 0 || 0x51 <= s[0] <= 0x60);
            assert(!is_p2pkh(s));
            assert(!is_p2sh(s));
            assert(is_witness_program(s));
            assert(s.subrange(2, s.len() as int) =~= program);
        },
        PayloadView::Bare => {},
    }
}


/// The bytes that push `data` in a script: its length in the shortest of the
/// four forms, then the data.
pub open spec fn push_data(data: Seq<u8>) -> Seq<u8> {
    let n = data.len() as int;
    if n < 0x4c {
        seq![n as u8] + data
    } else if n < 0x100 {
        seq![0x4cu8, n as u8] + data
    } else if n < 0x1_0000 {
        seq![0x4du8, (n % 256) as u8, (n / 256) as u8] + data
    } else {
        seq![
            0x4eu8,
            (n % 256) as u8,
            ((n / 256) % 256) as u8,
            ((n / 65536) % 256) as u8,
            ((n / 16777216) % 256) as u8,
        ] + data
    }
}

/// The unspendable script that carries `data`: `OP_RETURN` and one push.
pub open spec fn data_script(data: Seq<u8>) -> Seq<u8> {
    seq![0x6au8] + push_data(data)
}

/// Appends the bytes that push `data`.
pub fn push_data_to(out: &mut Vec<u8>, data: &Vec<u8>)
    ensures
        final(out)@ == old(out)@ + push_data(data@),
{
    let n: usize = data.len();
    if n < 0x4c {
        out.push(n as u8);
    } else if n < 0x100 {
        out.push(0x4c);
        out.push(n as u8);
    } else if n < 0x1_0000 {
        out.push(0x4d);
        out.push((n % 256) as u8);
        out.push((n / 256) as u8);
    } else {
        out.push(0x4e);
        out.push((n % 256) as u8);
        out.push(((n / 256) % 256) as u8);
        out.push(((n / 65536) % 256) as u8);
        out.push(((n / 16777216) % 256) as u8);
    }
    append_bytes(out, data);
    assert(out@ =~= old(out)@ + push_data(data@));
}

/// The unspendable script that carries `data`.
pub fn data_script_of(data: &Vec<u8>) -> (r: Script)
    ensures
        r@ == data_script(data@),
{
    let mut b: Vec<u8> = Vec::new();
    b.push(0x6a);
    push_data_to(&mut b, data);
    assert(b@ =~= data_script(data@));
    Script { bytes: b }
}

/// A witness program of version 0 that commits to the hash of a public key.
pub open spec fn is_p2wpkh(s: Seq<u8>) -> bool {
    s.len() == 22 && s[0] == 0 && s[1] == 20
}

/// A witness program of version 0 that commits to the hash of a script.
pub open spec fn is_p2wsh(s: Seq<u8>) -> bool {
    s.len() == 34 && s[0] == 0 && s[1] == 32
}

/// What a script of the form `m <key> .. <key> n OP_CHECKMULTISIG` asks for.
pub struct MultisigView {
    pub threshold: nat,
    pub keys: Seq<Seq<u8>>,
}

/// Whether `b` is the opcode of a small number from 1 to 16.
pub open spec fn is_small_number(b: u8) -> bool {
    0x51 <= b <= 0x60
}

/// The public keys that `b` pushes one after the other, each of 33 or 65
/// bytes, if `b` is nothing but such pushes.
pub open spec fn pushed_keys(b: Seq<u8>) -> Option<Seq<Seq<u8>>>
    decreases b.len(),
{
    if b.len() == 0 {
        Some(Seq::empty())
    } else if (b[0] == 33 || b[0] == 65) && b.len() >= 1 + b[0] {
        match pushed_keys(b.skip(1 + b[0])) {
            Some(rest) => Some(seq![b.subrange(1, 1 + b[0])] + rest),
            None => None,
        }
    } else {
        None
    }
}

/// What `s` asks for, if it is a multi-signature script: a small number, as
/// many keys as a second small number says, that number, and
/// `OP_CHECKMULTISIG`; with the first number no larger than the second.
pub open spec fn multisig_of(s: Seq<u8>) -> Option<MultisigView> {
    if s.len() >= 3 && is_small_number(s[0]) && is_small_number(s[s.len() - 2]) && s[s.len() - 1]
        == 0xae {
        match pushed_keys(s.subrange(1, s.len() - 2)) {
            Some(keys) => if keys.len() == s[s.len() - 2] - 0x50 && s[0] <= s[s.len() - 2] {
                Some(MultisigView { threshold: (s[0] - 0x50) as nat, keys })
            } else {
                None
            },
            None => None,
        }
    } else {
        None
    }
}

/// A multi-signature script, taken apart.
#[derive(Clone, Debug)]
pub struct Multisig {
    pub threshold: usize,
    pub keys: Vec<Vec<u8>>,
}

impl View for Multisig {
    type V = MultisigView;

    open spec fn view(&self) -> MultisigView {
        MultisigView { threshold: self.threshold as nat, keys: items_view(self.keys@) }
    }
}

impl Script {
    /// Whether the script is a version 0 program for a public key hash.
    pub fn is_p2wpkh(&self) -> (r: bool)
        ensures
            r == is_p2wpkh(self@),
    {
        self.bytes.len() == 22 && self.bytes[0] == 0 && self.bytes[1] == 20
    }

    /// Whether the script is a version 0 program for a script hash.
    pub fn is_p2wsh(&self) -> (r: bool)
        ensures
            r == is_p2wsh(self@),
    {
        self.bytes.len() == 34 && self.bytes[0] == 0 && self.bytes[1] == 32
    }

    /// What the script asks for, if it is a multi-signature script.
    pub fn multisig(&self) -> (r: Option<Multisig>)
        ensures
            r is Some == multisig_of(self@) is Some,
            r is Some ==> r->0@ == multisig_of(self@)->0,
    {
        let s = &self.bytes;
        let len: usize = s.len();
        if len < 3 {
            return None;
        }
        let m: u8 = s[0];
        let n: u8 = s[len - 2];
        if !(0x51 <= m && m <= 0x60 && 0x51 <= n && n <= 0x60 && s[len - 1] == 0xae) {
            return None;
        }
        let end: usize = len - 2;
        let ghost body = s@.subrange(1, end as int);
        let mut keys: Vec<Vec<u8>> = Vec::new();
        let mut pos: usize = 1;
        assert(body.skip(0) =~= body);
        assert(items_view(keys@) =~= Seq::<Seq<u8>>::empty());
        while pos < end
            invariant
                1 <= pos <= end,
                end == len - 2,
                len == s.len(),
                s == &self.bytes,
                body == s@.subrange(1, end as int),
                pushed_keys(body) == match pushed_keys(body.skip(pos - 1)) {
                    Some(rest) => Some(items_view(keys@) + rest),
                    None => None,
                },
            decreases end - pos,
        {
            let ghost here = body.skip(pos - 1);
            let width: u8 = s[pos];
            assert(here[0] == width);
            assert(here.len() == end - pos);
            if !(width == 33 || width == 65) || end - pos < 1 + width as usize {
                assert(pushed_keys(here) is None);
                return None;
            }
            let key: Vec<u8> = slice_bytes(s, pos + 1, pos + 1 + width as usize);
            proof {
                assert(here.subrange(1, 1 + width) =~= key@);
                assert(here.skip(1 + width) =~= body.skip(pos + width));
                let ghost before = items_view(keys@);
                match pushed_keys(body.skip(pos + width)) {
                    Some(rest) => {
                        assert(before + (seq![key@] + rest) =~= before.push(key@) + rest);
                    },
                    None => {},
                }
            }
            let ghost before = keys@;
            keys.push(key);
            assert(items_view(keys@) =~= items_view(before).push(key@));
            pos = pos + 1 + width as usize;
        }
        proof {
            assert(body.skip(end - 1).len() == 0);
            assert(items_view(keys@) + Seq::<Seq<u8>>::empty() =~= items_view(keys@));
        }
        if keys.len() == (n - 0x50) as usize && m <= n {
            Some(Multisig { threshold: (m - 0x50) as usize, keys })
        } else {
            None
        }
    }
}

} // verus!
