//! Blocks, headers and transactions as the codec sees them.
//!
//! Hashes, addresses, 256-bit scalars and seal fields are all plain byte
//! buffers here; what makes a value a hash or a scalar is its width and form,
//! stated by the well-formedness predicates below. Scalars are minimal
//! big-endian: no leading zero byte, and the empty buffer stands for zero.

use vstd::prelude::*;

verus! {

/// Mathematical view of an action.
#[verifier::ext_equal]
pub ghost enum ActionV {
    /// Contract creation: no target.
    Create,
    /// A call to the 20-byte target address.
    Call(Seq<u8>),
}

/// Mathematical view of a transaction.
#[verifier::ext_equal]
pub ghost struct TransactionV {
    pub action: ActionV,
    pub nonce: Seq<u8>,
    pub gas_price: Seq<u8>,
    pub gas: Seq<u8>,
    pub value: Seq<u8>,
    pub data: Seq<u8>,
    pub signature: Seq<u8>,
}

/// Mathematical view of a header.
#[verifier::ext_equal]
pub ghost struct HeaderV {
    pub parent_hash: Seq<u8>,
    pub author: Seq<u8>,
    pub state_root: Seq<u8>,
    pub transactions_root: Seq<u8>,
    pub receipts_root: Seq<u8>,
    pub log_bloom: Seq<u8>,
    pub difficulty: Seq<u8>,
    pub number: u64,
    pub gas_limit: Seq<u8>,
    pub gas_used: Seq<u8>,
    pub timestamp: u64,
    pub extra_data: Seq<u8>,
    pub uncles_hash: Seq<u8>,
    pub seal: Seq<Seq<u8>>,
}

/// Mathematical view of a block.
#[verifier::ext_equal]
pub ghost struct BlockV {
    pub header: HeaderV,
    pub transactions: Seq<TransactionV>,
    pub uncles: Seq<HeaderV>,
}

/// What a transaction does with its value: create a contract, or call a target.
#[derive(Debug, Clone)]
pub enum Action {
    Create,
    Call(Vec<u8>),
}

/// A transaction as carried through the codec. The codec never interprets the
/// fields beyond moving their bytes; `signature` is the opaque signing material.
#[derive(Debug, Clone)]
pub struct Transaction {
    pub action: Action,
    pub nonce: Vec<u8>,
    pub gas_price: Vec<u8>,
    pub gas: Vec<u8>,
    pub value: Vec<u8>,
    pub data: Vec<u8>,
    pub signature: Vec<u8>,
}

/// A block header.
#[derive(Debug, Clone)]
pub struct Header {
    pub parent_hash: Vec<u8>,
    pub author: Vec<u8>,
    pub state_root: Vec<u8>,
    pub transactions_root: Vec<u8>,
    pub receipts_root: Vec<u8>,
    pub log_bloom: Vec<u8>,
    pub difficulty: Vec<u8>,
    pub number: u64,
    pub gas_limit: Vec<u8>,
    pub gas_used: Vec<u8>,
    pub timestamp: u64,
    pub extra_data: Vec<u8>,
    pub uncles_hash: Vec<u8>,
    pub seal: Vec<Vec<u8>>,
}

/// A full block: a header, its transactions and its uncle headers.
#[derive(Debug, Clone)]
pub struct Block {
    pub header: Header,
    pub transactions: Vec<Transaction>,
    pub uncles: Vec<Header>,
}

impl View for Action {
    type V = ActionV;

    open spec fn view(&self) -> ActionV {
        match self {
            Action::Create => ActionV::Create,
            Action::Call(t) => ActionV::Call(t@),
        }
    }
}

impl DeepView for Action {
    type V = ActionV;

    open spec fn deep_view(&self) -> ActionV {
        self.view()
    }
}

impl View for Transaction {
    type V = TransactionV;

    open spec fn view(&self) -> TransactionV {
        TransactionV {
            action: self.action@,
            nonce: self.nonce@,
            gas_price: self.gas_price@,
            gas: self.gas@,
            value: self.value@,
            data: self.data@,
            signature: self.signature@,
        }
    }
}

impl DeepView for Transaction {
    type V = TransactionV;

    open spec fn deep_view(&self) -> TransactionV {
        self.view()
    }
}

impl View for Header {
    type V = HeaderV;

    open spec fn view(&self) -> HeaderV {
        HeaderV {
            parent_hash: self.parent_hash@,
            author: self.author@,
            state_root: self.state_root@,
            transactions_root: self.transactions_root@,
            receipts_root: self.receipts_root@,
            log_bloom: self.log_bloom@,
            difficulty: self.difficulty@,
            number: self.number,
            gas_limit: self.gas_limit@,
            gas_used: self.gas_used@,
            timestamp: self.timestamp,
            extra_data: self.extra_data@,
            uncles_hash: self.uncles_hash@,
            seal: self.seal.deep_view(),
        }
    }
}

impl DeepView for Header {
    type V = HeaderV;

    open spec fn deep_view(&self) -> HeaderV {
        self.view()
    }
}

impl View for Block {
    type V = BlockV;

    open spec fn view(&self) -> BlockV {
        BlockV {
            header: self.header@,
            transactions: self.transactions.deep_view(),
            uncles: self.uncles.deep_view(),
        }
    }
}

/// Byte lengths that the wire format's 8-byte length fields can carry.
pub open spec fn fits_len(n: nat) -> bool {
    n < 0x1_0000_0000_0000_0000
}

/// A minimal big-endian 256-bit scalar: at most 32 bytes, no leading zero.
pub open spec fn wf_scalar(s: Seq<u8>) -> bool {
    s.len() <= 32 && (s.len() > 0 ==> s[0] != 0)
}

/// A call target, when there is one, is a 20-byte address.
pub open spec fn wf_action(a: ActionV) -> bool {
    a matches ActionV::Call(t) ==> t.len() == 20
}

/// A well-formed transaction.
pub open spec fn wf_transaction(t: TransactionV) -> bool {
    &&& wf_action(t.action)
    &&& wf_scalar(t.nonce)
    &&& wf_scalar(t.gas_price)
    &&& wf_scalar(t.gas)
    &&& wf_scalar(t.value)
    &&& fits_len(t.data.len())
    &&& fits_len(t.signature.len())
}

/// A well-formed header: every fixed-width field has its width, every scalar
/// is minimal, and the seal fields are within the wire format's bounds.
pub open spec fn wf_header(h: HeaderV) -> bool {
    &&& h.parent_hash.len() == 32
    &&& h.author.len() == 20
    &&& h.state_root.len() == 32
    &&& h.transactions_root.len() == 32
    &&& h.receipts_root.len() == 32
    &&& h.log_bloom.len() == 256
    &&& wf_scalar(h.difficulty)
    &&& wf_scalar(h.gas_limit)
    &&& wf_scalar(h.gas_used)
    &&& fits_len(h.extra_data.len())
    &&& h.uncles_hash.len() == 32
    &&& fits_len(h.seal.len() + 13)
    &&& forall|i: int| 0 <= i < h.seal.len() ==> fits_len(#[trigger] h.seal[i].len())
}

/// Bytewise equality of two buffers.
pub fn eq_bytes(a: &[u8], b: &[u8]) -> (r: bool)
    ensures
        r == (a@ == b@),
{
    if a.len() != b.len() {
        return false;
    }
    let mut i: usize = 0;
    while i < a.len()
        invariant
            i <= a.len(),
            a.len() == b.len(),
            forall|j: int| 0 <= j < i ==> a@[j] == b@[j],
        decreases a.len() - i,
    {
        if a[i] != b[i] {
            return false;
        }
        i += 1;
    }
    proof {
        assert(a@ =~= b@);
    }
    true
}

/// Elementwise equality of two lists of buffers.
pub fn eq_bytes_list(a: &Vec<Vec<u8>>, b: &Vec<Vec<u8>>) -> (r: bool)
    ensures
        r == (a.deep_view() == b.deep_view()),
{
    proof {
        assert(a.deep_view().len() == a@.len());
        assert(b.deep_view().len() == b@.len());
    }
    if a.len() != b.len() {
        return false;
    }
    let mut i: usize = 0;
    while i < a.len()
        invariant
            i <= a.len(),
            a.len() == b.len(),
            a.deep_view().len() == a@.len(),
            b.deep_view().len() == b@.len(),
            forall|j: int| 0 <= j < i ==> a.deep_view()[j] == b.deep_view()[j],
        decreases a.len() - i,
    {
        proof {
            assert(a.deep_view()[i as int] == a@[i as int].deep_view());
            assert(b.deep_view()[i as int] == b@[i as int].deep_view());
            assert(a@[i as int].deep_view() =~= a@[i as int]@);
            assert(b@[i as int].deep_view() =~= b@[i as int]@);
        }
        if !eq_bytes(a[i].as_slice(), b[i].as_slice()) {
            return false;
        }
        i += 1;
    }
    proof {
        assert(a.deep_view() =~= b.deep_view());
    }
    true
}

impl PartialEq for Action {
    fn eq(&self, other: &Action) -> (r: bool) {
        match (self, other) {
            (Action::Create, Action::Create) => true,
            (Action::Call(a), Action::Call(b)) => eq_bytes(a.as_slice(), b.as_slice()),
            _ => false,
        }
    }
}

impl vstd::std_specs::cmp::PartialEqSpecImpl for Action {
    open spec fn obeys_eq_spec() -> bool {
        true
    }

    open spec fn eq_spec(&self, other: &Action) -> bool {
        self@ == other@
    }
}

impl PartialEq for Transaction {
    fn eq(&self, other: &Transaction) -> (r: bool) {
        let r = self.action == other.action && eq_bytes(self.nonce.as_slice(), other.nonce.as_slice())
            && eq_bytes(self.gas_price.as_slice(), other.gas_price.as_slice())
            && eq_bytes(self.gas.as_slice(), other.gas.as_slice())
            && eq_bytes(self.value.as_slice(), other.value.as_slice())
            && eq_bytes(self.data.as_slice(), other.data.as_slice())
            && eq_bytes(self.signature.as_slice(), other.signature.as_slice());
        r
    }
}

impl vstd::std_specs::cmp::PartialEqSpecImpl for Transaction {
    open spec fn obeys_eq_spec() -> bool {
        true
    }

    open spec fn eq_spec(&self, other: &Transaction) -> bool {
        self@ == other@
    }
}

impl PartialEq for Header {
    fn eq(&self, other: &Header) -> (r: bool) {
        let r = eq_bytes(self.parent_hash.as_slice(), other.parent_hash.as_slice())
            && eq_bytes(self.author.as_slice(), other.author.as_slice())
            && eq_bytes(self.state_root.as_slice(), other.state_root.as_slice())
            && eq_bytes(self.transactions_root.as_slice(), other.transactions_root.as_slice())
            && eq_bytes(self.receipts_root.as_slice(), other.receipts_root.as_slice())
            && eq_bytes(self.log_bloom.as_slice(), other.log_bloom.as_slice())
            && eq_bytes(self.difficulty.as_slice(), other.difficulty.as_slice())
            && self.number == other.number
            && eq_bytes(self.gas_limit.as_slice(), other.gas_limit.as_slice())
            && eq_bytes(self.gas_used.as_slice(), other.gas_used.as_slice())
            && self.timestamp == other.timestamp
            && eq_bytes(self.extra_data.as_slice(), other.extra_data.as_slice())
            && eq_bytes(self.uncles_hash.as_slice(), other.uncles_hash.as_slice())
            && eq_bytes_list(&self.seal, &other.seal);
        r
    }
}

impl vstd::std_specs::cmp::PartialEqSpecImpl for Header {
    open spec fn obeys_eq_spec() -> bool {
        true
    }

    open spec fn eq_spec(&self, other: &Header) -> bool {
        self@ == other@
    }
}

/// Elementwise equality of two transaction lists.
fn eq_transactions(a: &Vec<Transaction>, b: &Vec<Transaction>) -> (r: bool)
    ensures
        r == (a.deep_view() == b.deep_view()),
{
    proof {
        assert(a.deep_view().len() == a@.len());
        assert(b.deep_view().len() == b@.len());
    }
    if a.len() != b.len() {
        return false;
    }
    let mut i: usize = 0;
    while i < a.len()
        invariant
            i <= a.len(),
            a.len() == b.len(),
            a.deep_view().len() == a@.len(),
            b.deep_view().len() == b@.len(),
            forall|j: int| 0 <= j < i ==> a.deep_view()[j] == b.deep_view()[j],
        decreases a.len() - i,
    {
        proof {
            assert(a.deep_view()[i as int] == a@[i as int].deep_view());
            assert(b.deep_view()[i as int] == b@[i as int].deep_view());
        }
        if !(&a[i] == &b[i]) {
            return false;
        }
        i += 1;
    }
    proof {
        assert(a.deep_view() =~= b.deep_view());
    }
    true
}

/// Elementwise equality of two header lists.
fn eq_headers(a: &Vec<Header>, b: &Vec<Header>) -> (r: bool)
    ensures
        r == (a.deep_view() == b.deep_view()),
{
    proof {
        assert(a.deep_view().len() == a@.len());
        assert(b.deep_view().len() == b@.len());
    }
    if a.len() != b.len() {
        return false;
    }
    let mut i: usize = 0;
    while i < a.len()
        invariant
            i <= a.len(),
            a.len() == b.len(),
            a.deep_view().len() == a@.len(),
            b.deep_view().len() == b@.len(),
            forall|j: int| 0 <= j < i ==> a.deep_view()[j] == b.deep_view()[j],
        decreases a.len() - i,
    {
        proof {
            assert(a.deep_view()[i as int] == a@[i as int].deep_view());
            assert(b.deep_view()[i as int] == b@[i as int].deep_view());
        }
        if !(&a[i] == &b[i]) {
            return false;
        }
        i += 1;
    }
    proof {
        assert(a.deep_view() =~= b.deep_view());
    }
    true
}

impl PartialEq for Block {
    fn eq(&self, other: &Block) -> (r: bool) {
        let r = self.header == other.header && eq_transactions(&self.transactions, &other.transactions)
            && eq_headers(&self.uncles, &other.uncles);
        r
    }
}

impl vstd::std_specs::cmp::PartialEqSpecImpl for Block {
    open spec fn obeys_eq_spec() -> bool {
        true
    }

    open spec fn eq_spec(&self, other: &Block) -> bool {
        self@ == other@
    }
}

/// The all-zero byte sequence of length `n`.
pub open spec fn zero_bytes(n: nat) -> Seq<u8> {
    Seq::new(n, |i: int| 0u8)
}

/// A buffer of `n` zero bytes.
pub fn zero_bytes_vec(n: usize) -> (r: Vec<u8>)
    ensures
        r@ == zero_bytes(n as nat),
{
    let mut out: Vec<u8> = Vec::new();
    let mut i: usize = 0;
    while i < n
        invariant
            i <= n,
            out@ == zero_bytes(i as nat),
        decreases n - i,
    {
        out.push(0);
        i += 1;
        proof {
            assert(out@ =~= zero_bytes(i as nat));
        }
    }
    out
}

/// The zero 256-bit hash.
pub fn h256_zero() -> (r: Vec<u8>)
    ensures
        r@ == zero_bytes(32),
{
    zero_bytes_vec(32)
}

/// Minimal big-endian bytes of `v`: empty for zero, no leading zero otherwise.
pub open spec fn scalar_of(v: u64) -> Seq<u8>
    decreases v,
{
    if v == 0 {
        Seq::empty()
    } else {
        scalar_of(v / 256).push((v % 256) as u8)
    }
}

/// The 256-bit scalar holding `v`, as minimal big-endian bytes.
pub fn u256_from(v: u64) -> (r: Vec<u8>)
    ensures
        r@ == scalar_of(v),
{
    let mut low_first: Vec<u8> = Vec::new();
    let mut x = v;
    while x > 0
        invariant
            scalar_of(v) == scalar_of(x) + low_first@.reverse(),
        decreases x,
    {
        let ghost old_low = low_first@;
        low_first.push((x % 256) as u8);
        proof {
            assert(low_first@.reverse() =~= seq![(x % 256) as u8] + old_low.reverse());
            assert(scalar_of(x) == scalar_of(x / 256).push((x % 256) as u8));
            assert(scalar_of(x / 256).push((x % 256) as u8) + old_low.reverse() =~= scalar_of(
                x / 256,
            ) + (seq![(x % 256) as u8] + old_low.reverse()));
        }
        x = x / 256;
    }
    proof {
        assert(scalar_of(v) =~= low_first@.reverse());
    }
    let mut out: Vec<u8> = Vec::new();
    let n = low_first.len();
    let mut i: usize = 0;
    while i < n
        invariant
            i <= n,
            n == low_first.len(),
            out@ =~= low_first@.reverse().take(i as int),
        decreases n - i,
    {
        out.push(low_first[n - 1 - i]);
        i += 1;
        proof {
            assert(out@ =~= low_first@.reverse().take(i as int));
        }
    }
    proof {
        assert(out@ =~= low_first@.reverse());
    }
    out
}

/// The 20-byte address whose low eight bytes hold `v` big-endian.
pub open spec fn address_of(v: u64) -> Seq<u8> {
    zero_bytes(12) + vstd::bytes::spec_u64_to_le_bytes(v).reverse()
}

/// Builds the 20-byte address whose low eight bytes hold `v` big-endian.
pub fn address_from(v: u64) -> (r: Vec<u8>)
    ensures
        r@ == address_of(v),
        r@.len() == 20,
{
    let mut out = zero_bytes_vec(12);
    let le = vstd::bytes::u64_to_le_bytes(v);
    let mut i: usize = 0;
    while i < 8
        invariant
            i <= 8,
            le@ == vstd::bytes::spec_u64_to_le_bytes(v),
            le@.len() == 8,
            out@ =~= zero_bytes(12) + le@.reverse().take(i as int),
        decreases 8 - i,
    {
        out.push(le[7 - i]);
        i += 1;
        proof {
            assert(out@ =~= zero_bytes(12) + le@.reverse().take(i as int));
        }
    }
    proof {
        assert(le@.reverse().take(8) =~= le@.reverse());
        assert(out@ =~= address_of(v));
    }
    out
}

impl Transaction {
    /// Attaches opaque signing material derived from a sender address, the
    /// way test signing does; every other field is kept.
    pub fn fake_sign(self, sender: Vec<u8>) -> (r: Transaction)
        ensures
            r@ == (TransactionV { signature: sender@, ..self@ }),
    {
        Transaction {
            action: self.action,
            nonce: self.nonce,
            gas_price: self.gas_price,
            gas: self.gas,
            value: self.value,
            data: self.data,
            signature: sender,
        }
    }
}

} // verus!
