//! Node and particle identifiers.

use crate::assoc::{Held, Key};
use crate::text;
use crate::text::{decimal_text, find_last, hex_decode, hex_encode, parse_u64, push_char};
use vstd::prelude::*;
use vstd::string::*;

verus! {

/// Whether `iroh::PublicKey::from_bytes` accepts the bytes: they encode a point of the curve.
pub uninterp spec fn is_public_key(bytes: Seq<u8>) -> bool;

/// The bytes of the key that `iroh::PublicKey::from_str` reads in a text, if it accepts it.
pub uninterp spec fn public_key_in_text(s: Seq<char>) -> Option<Seq<u8>>;

/// `iroh::PublicKey::from_bytes`: tells whether the bytes are a public key. The key that it
/// makes keeps the bytes as they are.
#[verifier::external_body]
fn accepts_public_key(bytes: &[u8; 32]) -> (r: bool)
    ensures
        r == is_public_key(bytes@),
{
    iroh::PublicKey::from_bytes(bytes).is_ok()
}

/// `iroh::PublicKey::from_str`: the bytes of the key that a text spells, in hexadecimal or in
/// base 32. Whatever it accepts is a public key.
#[verifier::external_body]
fn read_public_key(s: &str) -> (r: Option<[u8; 32]>)
    ensures
        match r {
            Some(bytes) => public_key_in_text(s@) == Some(bytes@) && is_public_key(bytes@),
            None => public_key_in_text(s@) is None,
        },
{
    s.parse::<iroh::PublicKey>().ok().map(|key| *key.as_bytes())
}

/// The identifier of a node: the 32 bytes of its public key.
#[derive(Clone, Copy, PartialEq, Eq, PartialOrd, Ord, Hash, Debug)]
pub struct NodeId {
    bytes: [u8; 32],
}

/// Lexicographic order on sequences of bytes.
pub open spec fn bytes_less(a: Seq<u8>, b: Seq<u8>) -> bool
    decreases a.len(),
{
    if a.len() == 0 {
        b.len() > 0
    } else if b.len() == 0 {
        false
    } else if a[0] != b[0] {
        a[0] < b[0]
    } else {
        bytes_less(a.skip(1), b.skip(1))
    }
}

impl View for NodeId {
    type V = NodeId;

    open spec fn view(&self) -> NodeId {
        *self
    }
}

impl NodeId {
    /// The bytes of the public key.
    pub closed spec fn bytes(&self) -> Seq<u8> {
        self.bytes@
    }

    #[verifier::type_invariant]
    spec fn is_key(self) -> bool {
        is_public_key(self.bytes@)
    }

    /// The node with the given public key; none where the bytes are no public key.
    pub fn from_bytes(bytes: &[u8; 32]) -> (r: Option<NodeId>)
        ensures
            match r {
                Some(node) => is_public_key(bytes@) && node.bytes() == bytes@,
                None => !is_public_key(bytes@),
            },
    {
        if accepts_public_key(bytes) {
            Some(NodeId { bytes: *bytes })
        } else {
            None
        }
    }

    /// The node whose public key a text spells.
    pub fn parse(s: &str) -> (r: Option<NodeId>)
        ensures
            match r {
                Some(node) => public_key_in_text(s@) == Some(node.bytes()),
                None => public_key_in_text(s@) is None,
            },
    {
        match read_public_key(s) {
            Some(bytes) => Some(NodeId { bytes }),
            None => None,
        }
    }

    pub fn as_bytes(&self) -> (r: &[u8; 32])
        ensures
            r@ == self.bytes(),
            r@.len() == 32,
            is_public_key(r@),
    {
        proof {
            use_type_invariant(self);
        }
        &self.bytes
    }

    /// The key in full, in hexadecimal.
    pub fn to_hex(&self) -> (r: String)
        ensures
            r@ == text::hex_text(self.bytes()),
    {
        hex_encode(self.bytes.as_slice())
    }

    /// Whether this node's key comes before the other's.
    pub fn less(&self, other: &NodeId) -> (r: bool)
        ensures
            r == bytes_less(self.bytes(), other.bytes()),
    {
        let mut i: usize = 0;
        assert(self.bytes@.skip(0) =~= self.bytes@);
        assert(other.bytes@.skip(0) =~= other.bytes@);
        while i < 32
            invariant
                i <= 32,
                bytes_less(self.bytes@, other.bytes@) == bytes_less(
                    self.bytes@.skip(i as int),
                    other.bytes@.skip(i as int),
                ),
            decreases 32 - i,
        {
            proof {
                assert(self.bytes@.skip(i as int).skip(1) =~= self.bytes@.skip(i + 1));
                assert(other.bytes@.skip(i as int).skip(1) =~= other.bytes@.skip(i + 1));
            }
            if self.bytes[i] != other.bytes[i] {
                return self.bytes[i] < other.bytes[i];
            }
            i += 1;
        }
        false
    }
}

/// A node identifier is nothing but its bytes.
pub broadcast proof fn lemma_node_bytes(a: NodeId, b: NodeId)
    ensures
        #![trigger a.bytes(), b.bytes()]
        a.bytes() == b.bytes() ==> a == b,
        a.bytes().len() == 32,
{
    if a.bytes() == b.bytes() {
        assert(a.bytes =~= b.bytes);
    }
}

/// The first bytes of a sequence as an array.
spec fn filled(b: Seq<u8>, k: nat) -> [u8; 32]
    decreases k,
{
    if k == 0 {
        arbitrary()
    } else {
        vstd::array::spec_array_update(filled(b, (k - 1) as nat), k - 1, b[k - 1])
    }
}

proof fn lemma_filled(b: Seq<u8>, k: nat)
    requires
        k <= b.len() == 32,
    ensures
        forall|i: int| 0 <= i < k ==> #[trigger] filled(b, k)@[i] == b[i],
    decreases k,
{
    broadcast use vstd::array::group_array_axioms;

    if k > 0 {
        lemma_filled(b, (k - 1) as nat);
        let before = filled(b, (k - 1) as nat);
        assert(before@.len() == 32);
        assert(filled(b, k)@ == before@.update(k - 1, b[k - 1]));
        assert forall|i: int| 0 <= i < k implies #[trigger] filled(b, k)@[i] == b[i] by {
            if i < k - 1 {
                assert(before@[i] == b[i]);
            }
        }
    }
}

/// Any 32 bytes are those of some identifier.
pub proof fn lemma_node_of_bytes(b: Seq<u8>) -> (node: NodeId)
    requires
        b.len() == 32,
    ensures
        node.bytes() == b,
{
    lemma_filled(b, 32);
    let node = NodeId { bytes: filled(b, 32) };
    assert(node.bytes() =~= b);
    node
}

impl Key for NodeId {
    fn same(&self, other: &Self) -> (r: bool) {
        let mut i: usize = 0;
        while i < 32
            invariant
                i <= 32,
                forall|j: int| 0 <= j < i ==> self.bytes@[j] == other.bytes@[j],
            decreases 32 - i,
        {
            if self.bytes[i] != other.bytes[i] {
                return false;
            }
            i += 1;
        }
        assert(self.bytes =~= other.bytes);
        true
    }
}

impl Held for NodeId {
    open spec fn valid(&self) -> bool {
        true
    }
}

/// A globally unique particle identifier: the node that runs the particle, and a sequence
/// number that the node never hands out twice. The node to contact follows from it alone.
#[derive(Clone, Copy, PartialEq, Eq, PartialOrd, Ord, Hash, Debug)]
pub struct Pid {
    pub node: NodeId,
    pub seq: u64,
}

impl View for Pid {
    type V = Pid;

    open spec fn view(&self) -> Pid {
        *self
    }
}

impl Key for Pid {
    fn same(&self, other: &Self) -> (r: bool) {
        self.seq == other.seq && self.node.same(&other.node)
    }
}

impl Held for Pid {
    open spec fn valid(&self) -> bool {
        true
    }
}

/// Why a text is not a registry key.
#[derive(Clone, Copy, PartialEq, Eq, Structural, Debug)]
pub enum PidKeyError {
    /// There is no `.` in it.
    NoSeparator,
    /// What stands before the last `.` is not hexadecimal.
    BadHex,
    /// The node id is not 32 bytes long.
    BadLength,
    /// The node id is not a public key.
    BadNode,
    /// What stands after the last `.` is not a 64-bit number.
    BadSequence,
}

/// The lossless text of a pid: the whole node id in hexadecimal, a dot, the sequence number.
pub open spec fn key_text(node: Seq<u8>, seq: u64) -> Seq<char> {
    text::hex_text(node).push('.') + text::decimal(seq as nat)
}

/// The node id and the sequence number that a registry key carries.
pub open spec fn key_parts(s: Seq<char>) -> Result<(Seq<u8>, u64), PidKeyError> {
    match text::last_index_of(s, '.') {
        None => Err(PidKeyError::NoSeparator),
        Some(dot) => match text::hex_bytes(s.take(dot)) {
            None => Err(PidKeyError::BadHex),
            Some(node) => if node.len() != 32 {
                Err(PidKeyError::BadLength)
            } else if !is_public_key(node) {
                Err(PidKeyError::BadNode)
            } else {
                match text::parsed_u64(s.skip(dot + 1)) {
                    None => Err(PidKeyError::BadSequence),
                    Some(seq) => Ok((node, seq)),
                }
            },
        },
    }
}

/// The short text of a pid: `<`, the first four bytes of the node id in hexadecimal, a dot,
/// the sequence number, `>`.
pub open spec fn display_text(node: Seq<u8>, seq: u64) -> Seq<char> {
    (seq!['<'] + text::hex_text(node.take(4))).push('.') + text::decimal(seq as nat).push('>')
}

/// A registry key carries the pid that it was made from, whole.
pub proof fn law_key_roundtrip(node: Seq<u8>, seq: u64)
    requires
        node.len() == 32,
        is_public_key(node),
    ensures
        key_parts(key_text(node, seq)) == Ok::<(Seq<u8>, u64), PidKeyError>((node, seq)),
{
    let s = key_text(node, seq);
    let dot = text::hex_text(node).len() as int;
    text::lemma_decimal(seq as nat);
    text::lemma_last_index_is(s, '.', dot);
    assert(s.take(dot) =~= text::hex_text(node));
    assert(s.skip(dot + 1) =~= text::decimal(seq as nat));
    text::lemma_hex_roundtrip(node);
}

/// Two pids with the same registry key are the same pid.
pub proof fn law_key_injective(a: Pid, b: Pid)
    requires
        is_public_key(a.node.bytes()),
        is_public_key(b.node.bytes()),
        key_text(a.node.bytes(), a.seq) == key_text(b.node.bytes(), b.seq),
    ensures
        a == b,
{
    lemma_node_bytes(a.node, b.node);
    law_key_roundtrip(a.node.bytes(), a.seq);
    law_key_roundtrip(b.node.bytes(), b.seq);
}

impl Pid {
    /// The first four bytes of the node id, in hexadecimal.
    pub fn node_prefix(&self) -> (r: String)
        ensures
            r@ == text::hex_text(self.node.bytes().take(4)),
            r@.len() == 8,
    {
        let bytes = self.node.as_bytes();
        let mut head: Vec<u8> = Vec::new();
        let mut i: usize = 0;
        while i < 4
            invariant
                i <= 4,
                bytes@.len() == 32,
                head@ == bytes@.take(i as int),
            decreases 4 - i,
        {
            head.push(bytes[i]);
            i += 1;
        }
        hex_encode(head.as_slice())
    }

    /// Whether the pid belongs to the given node.
    pub fn is_local_to(&self, node: &NodeId) -> (r: bool)
        ensures
            r == (self.node == *node),
    {
        self.node.same(node)
    }

    /// Lossless text, for use as a key of the distributed registry.
    pub fn to_key(&self) -> (r: String)
        ensures
            r@ == key_text(self.node.bytes(), self.seq),
            key_parts(r@) == Ok::<(Seq<u8>, u64), PidKeyError>((self.node.bytes(), self.seq)),
    {
        let bytes = self.node.as_bytes();
        proof {
            law_key_roundtrip(self.node.bytes(), self.seq);
        }
        let mut r = hex_encode(bytes.as_slice());
        push_char(&mut r, '.');
        r.append(decimal_text(self.seq).as_str());
        r
    }

    /// Reads the text that `to_key` writes.
    pub fn from_key(s: &str) -> (r: Result<Pid, PidKeyError>)
        ensures
            match r {
                Ok(pid) => key_parts(s@) == Ok::<(Seq<u8>, u64), PidKeyError>(
                    (pid.node.bytes(), pid.seq),
                ),
                Err(e) => key_parts(s@) == Err::<(Seq<u8>, u64), PidKeyError>(e),
            },
    {
        let dot: usize = match find_last(s, '.') {
            Some(dot) => dot,
            None => return Err(PidKeyError::NoSeparator),
        };
        let n: usize = s.unicode_len();
        let node_hex = s.substring_char(0, dot);
        let seq_text = s.substring_char(dot + 1, n);
        let bytes = match hex_decode(node_hex) {
            Ok(bytes) => bytes,
            Err(_) => return Err(PidKeyError::BadHex),
        };
        let array = match vec_to_array(&bytes) {
            Some(array) => array,
            None => return Err(PidKeyError::BadLength),
        };
        let node = match NodeId::from_bytes(&array) {
            Some(node) => node,
            None => return Err(PidKeyError::BadNode),
        };
        match parse_u64(seq_text) {
            Some(seq) => Ok(Pid { node, seq }),
            None => Err(PidKeyError::BadSequence),
        }
    }

    /// Short text for people to read. It cuts the node id to four bytes, so it does not
    /// identify a particle.
    pub fn to_text(&self) -> (r: String)
        ensures
            r@ == display_text(self.node.bytes(), self.seq),
    {
        let mut r = String::new();
        push_char(&mut r, '<');
        r.append(self.node_prefix().as_str());
        push_char(&mut r, '.');
        r.append(decimal_text(self.seq).as_str());
        push_char(&mut r, '>');
        r
    }

    /// Whether this pid comes before the other: by node id, then by sequence number.
    pub fn less(&self, other: &Pid) -> (r: bool)
        ensures
            r == pid_less(*self, *other),
    {
        if self.node.same(&other.node) {
            self.seq < other.seq
        } else {
            self.node.less(&other.node)
        }
    }
}

/// The order of pids: by node id, then by sequence number.
pub open spec fn pid_less(a: Pid, b: Pid) -> bool {
    if a.node == b.node {
        a.seq < b.seq
    } else {
        bytes_less(a.node.bytes(), b.node.bytes())
    }
}

/// Of two sequences of one length exactly one comes first, unless they are equal.
proof fn lemma_bytes_total(a: Seq<u8>, b: Seq<u8>)
    requires
        a.len() == b.len(),
    ensures
        a == b ==> !bytes_less(a, b),
        a != b ==> bytes_less(a, b) != bytes_less(b, a),
    decreases a.len(),
{
    if a.len() > 0 {
        lemma_bytes_total(a.skip(1), b.skip(1));
        if a[0] == b[0] && a.skip(1) == b.skip(1) {
            assert forall|i: int| 0 <= i < a.len() implies a[i] == b[i] by {
                if i > 0 {
                    assert(a[i] == a.skip(1)[i - 1]);
                }
            }
            assert(a =~= b);
        }
    } else {
        assert(a =~= b);
    }
}

proof fn lemma_bytes_transitive(a: Seq<u8>, b: Seq<u8>, c: Seq<u8>)
    requires
        bytes_less(a, b),
        bytes_less(b, c),
    ensures
        bytes_less(a, c),
    decreases a.len(),
{
    if a.len() > 0 && a[0] == b[0] && b[0] == c[0] {
        lemma_bytes_transitive(a.skip(1), b.skip(1), c.skip(1));
    }
}

/// Of two nodes that differ exactly one comes first.
pub proof fn lemma_node_order(a: NodeId, b: NodeId)
    ensures
        a == b ==> !bytes_less(a.bytes(), b.bytes()),
        a != b ==> bytes_less(a.bytes(), b.bytes()) != bytes_less(b.bytes(), a.bytes()),
{
    lemma_node_bytes(a, b);
    lemma_bytes_total(a.bytes(), b.bytes());
}

/// The order of nodes is transitive.
pub proof fn lemma_node_order_trans(a: NodeId, b: NodeId, c: NodeId)
    requires
        bytes_less(a.bytes(), b.bytes()),
        bytes_less(b.bytes(), c.bytes()),
    ensures
        bytes_less(a.bytes(), c.bytes()),
{
    lemma_bytes_transitive(a.bytes(), b.bytes(), c.bytes());
}

/// The order of pids is total: of two pids that differ exactly one comes first.
pub proof fn law_pid_order_total(a: Pid, b: Pid)
    ensures
        a == b ==> !pid_less(a, b),
        a != b ==> pid_less(a, b) != pid_less(b, a),
{
    lemma_node_bytes(a.node, b.node);
    lemma_bytes_total(a.node.bytes(), b.node.bytes());
}

/// The order of pids is transitive.
pub proof fn law_pid_order_transitive(a: Pid, b: Pid, c: Pid)
    requires
        pid_less(a, b),
        pid_less(b, c),
    ensures
        pid_less(a, c),
{
    lemma_node_bytes(a.node, b.node);
    if a.node != b.node && b.node != c.node {
        lemma_bytes_transitive(a.node.bytes(), b.node.bytes(), c.node.bytes());
        if a.node == c.node {
            lemma_bytes_total(a.node.bytes(), b.node.bytes());
        }
    }
}

/// The 32 bytes of a vector of that length.
pub fn vec_to_array(v: &Vec<u8>) -> (r: Option<[u8; 32]>)
    ensures
        match r {
            Some(a) => v@.len() == 32 && a@ == v@,
            None => v@.len() != 32,
        },
{
    if v.len() != 32 {
        return None;
    }
    let mut a: [u8; 32] = [0u8; 32];
    let mut i: usize = 0;
    while i < 32
        invariant
            i <= 32,
            v@.len() == 32,
            forall|j: int| 0 <= j < i ==> a@[j] == v@[j],
        decreases 32 - i,
    {
        a[i] = v[i];
        i += 1;
    }
    Some(a)
}

/// Hands out the pids of a node.
pub struct PidGenerator {
    node: NodeId,
    next_seq: u64,
}

impl PidGenerator {
    /// The node of the pids.
    pub closed spec fn owner(&self) -> NodeId {
        self.node
    }

    /// The sequence number of the next pid.
    pub closed spec fn upcoming(&self) -> u64 {
        self.next_seq
    }

    pub fn new(node: NodeId) -> (r: Self)
        ensures
            r.owner() == node,
            r.upcoming() == 1,
    {
        PidGenerator { node, next_seq: 1 }
    }

    /// The node these pids belong to.
    pub fn node(&self) -> (r: NodeId)
        ensures
            r == self.owner(),
    {
        self.node
    }

    /// The next pid. The counter wraps around after the last 64-bit number.
    pub fn next(&mut self) -> (r: Pid)
        ensures
            r == (Pid { node: old(self).owner(), seq: old(self).upcoming() }),
            final(self).owner() == old(self).owner(),
            final(self).upcoming() == next_counter(old(self).upcoming()),
    {
        let seq: u64 = self.next_seq;
        self.next_seq = seq.wrapping_add(1);
        Pid { node: self.node, seq }
    }
}

/// A 64-bit counter one step on: it wraps around to zero.
pub open spec fn next_counter(n: u64) -> u64 {
    if n == u64::MAX {
        0
    } else {
        (n + 1) as u64
    }
}

} // verus!
