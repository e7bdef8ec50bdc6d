//! Genesis transactions: the record grammar, the node roster derived from
//! the records, and the store that anchors both in a hash tree.
//!
//! A genesis transaction is one line of text that describes one validator
//! node: its identifier, its network address and its verification key, each a
//! non-empty run of visible ASCII characters, separated by single spaces.

use crate::error::{ConfigFault, VdrError, VdrResult};
use crate::merkle::{leaf_hash, merkle_root, MerkleTree};
use vstd::prelude::*;
use vstd::string::*;
use vstd::utf8::*;

verus! {

/// A character that may stand in a field of a record: visible ASCII.
pub open spec fn is_token_char(c: char) -> bool {
    '!' <= c <= '~'
}

/// A field of a record: a non-empty run of visible ASCII characters.
pub open spec fn is_token(s: Seq<char>) -> bool {
    s.len() > 0 && forall|i: int| 0 <= i < s.len() ==> is_token_char(#[trigger] s[i])
}

/// What a node descriptor holds, as plain sequences of characters.
pub struct NodeView {
    pub id: Seq<char>,
    pub address: Seq<char>,
    pub verkey: Seq<char>,
}

impl NodeView {
    /// Every field is a token.
    pub open spec fn wf(self) -> bool {
        is_token(self.id) && is_token(self.address) && is_token(self.verkey)
    }

    /// The genesis transaction that describes this node.
    pub open spec fn record(self) -> Seq<char> {
        self.id + seq![' '] + self.address + seq![' '] + self.verkey
    }

    /// Place of the space that ends the identifier.
    pub open spec fn first_space(self) -> int {
        self.id.len() as int
    }

    /// Place of the space that ends the address.
    pub open spec fn second_space(self) -> int {
        (self.id.len() + 1 + self.address.len()) as int
    }
}

/// `s` is a well-formed genesis transaction.
pub open spec fn is_record(s: Seq<char>) -> bool {
    exists|n: NodeView| n.wf() && #[trigger] n.record() == s
}

/// The node that the well-formed genesis transaction `s` describes.
pub open spec fn parse_record(s: Seq<char>) -> NodeView {
    choose|n: NodeView| n.wf() && #[trigger] n.record() == s
}

/// Where the fields of a record lie in it.
pub proof fn lemma_record_shape(n: NodeView)
    requires
        n.wf(),
    ensures
        n.record().len() == n.id.len() + n.address.len() + n.verkey.len() + 2,
        n.record().subrange(0, n.first_space()) == n.id,
        n.record()[n.first_space()] == ' ',
        n.record().subrange(n.first_space() + 1, n.second_space()) == n.address,
        n.record()[n.second_space()] == ' ',
        n.record().subrange(n.second_space() + 1, n.record().len() as int) == n.verkey,
{
    let r = n.record();
    let a = n.id.len() as int;
    let b = n.address.len() as int;
    assert(r.subrange(0, a) =~= n.id);
    assert(r.subrange(a + 1, a + 1 + b) =~= n.address);
    assert(r.subrange(a + b + 2, r.len() as int) =~= n.verkey);
}

/// A well-formed genesis transaction describes exactly one node.
pub proof fn lemma_record_unique(a: NodeView, b: NodeView)
    requires
        a.wf(),
        b.wf(),
        a.record() == b.record(),
    ensures
        a == b,
{
    lemma_record_shape(a);
    lemma_record_shape(b);
    let r = a.record();
    let la = a.id.len() as int;
    let lb = b.id.len() as int;
    if la < lb {
        assert(b.id[la] == r.subrange(0, lb)[la]);
        assert(is_token_char(b.id[la]));
    }
    if lb < la {
        assert(a.id[lb] == r.subrange(0, la)[lb]);
        assert(is_token_char(a.id[lb]));
    }
    assert(la == lb);
    let ma = a.address.len() as int;
    let mb = b.address.len() as int;
    if ma < mb {
        assert(b.address[ma] == r.subrange(la + 1, la + 1 + mb)[ma]);
        assert(is_token_char(b.address[ma]));
    }
    if mb < ma {
        assert(a.address[mb] == r.subrange(la + 1, la + 1 + ma)[mb]);
        assert(is_token_char(a.address[mb]));
    }
    assert(ma == mb);
    assert(a.id =~= b.id);
    assert(a.address =~= b.address);
    assert(a.verkey =~= b.verkey);
}

/// The node of a record is the one whose record it is.
pub proof fn lemma_parse_record(n: NodeView)
    requires
        n.wf(),
    ensures
        is_record(n.record()),
        parse_record(n.record()) == n,
{
    let m = parse_record(n.record());
    lemma_record_unique(m, n);
}

/// A validator node of the roster.
#[derive(Debug, PartialEq, Eq)]
pub struct NodeDescriptor {
    /// The node's identifier.
    pub id: String,
    /// The node's network address.
    pub address: String,
    /// The key that the node's replies are verified with.
    pub verkey: String,
}

impl View for NodeDescriptor {
    type V = NodeView;

    open spec fn view(&self) -> NodeView {
        NodeView { id: self.id@, address: self.address@, verkey: self.verkey@ }
    }
}

impl Clone for NodeDescriptor {
    fn clone(&self) -> (out: NodeDescriptor)
        ensures
            out@ == self@,
    {
        NodeDescriptor {
            id: self.id.clone(),
            address: self.address.clone(),
            verkey: self.verkey.clone(),
        }
    }
}

impl NodeDescriptor {
    /// The genesis transaction that describes this node.
    pub fn to_record(&self) -> (out: String)
        ensures
            out@ == self@.record(),
    {
        let mut out = self.id.clone();
        out.append(" ");
        out.append(self.address.as_str());
        out.append(" ");
        out.append(self.verkey.as_str());
        proof {
            reveal_strlit(" ");
            assert(" "@ =~= seq![' ']);
        }
        out
    }
}

/// End of the run of token characters that starts at `start`.
fn token_end(bytes: &[u8], start: usize) -> (end: usize)
    requires
        start <= bytes.len(),
    ensures
        start <= end <= bytes.len(),
        forall|i: int| start <= i < end ==> 0x21 <= #[trigger] bytes[i] <= 0x7e,
        end < bytes.len() ==> !(0x21 <= bytes[end as int] <= 0x7e),
{
    let mut end: usize = start;
    while end < bytes.len() && 0x21 <= bytes[end] && bytes[end] <= 0x7e
        invariant
            start <= end <= bytes.len(),
            forall|i: int| start <= i < end ==> 0x21 <= #[trigger] bytes[i] <= 0x7e,
        decreases bytes.len() - end,
    {
        end = end + 1;
    }
    end
}

/// Reads one genesis transaction.
///
/// Returns the node it describes, or `None` where the text does not follow
/// the record grammar.
pub fn parse_transaction(txn: &str) -> (r: Option<NodeDescriptor>)
    ensures
        r is Some <==> is_record(txn@),
        r matches Some(d) ==> d@ == parse_record(txn@),
{
    let ghost s = txn@;
    if !txn.is_ascii() {
        proof {
            if is_record(s) {
                let n = parse_record(s);
                lemma_record_chars(n);
            }
        }
        return None;
    }
    let bytes = txn.as_bytes();
    proof {
        is_ascii_chars_encode_utf8(s);
    }
    let len: usize = bytes.len();
    let a: usize = token_end(bytes, 0);
    if a == 0 || a >= len || bytes[a] != 0x20 {
        proof {
            if is_record(s) {
                let n = parse_record(s);
                lemma_record_shape(n);
                lemma_record_chars(n);
                lemma_first_field(s, n.first_space(), a as int);
            }
        }
        return None;
    }
    let b: usize = token_end(bytes, a + 1);
    if b == a + 1 || b >= len || bytes[b] != 0x20 {
        proof {
            if is_record(s) {
                let n = parse_record(s);
                lemma_record_shape(n);
                lemma_record_chars(n);
                lemma_first_field(s, n.first_space(), a as int);
                lemma_next_field(s, a + 1, n.second_space(), b as int);
            }
        }
        return None;
    }
    let c: usize = token_end(bytes, b + 1);
    if c == b + 1 || c != len {
        proof {
            if is_record(s) {
                let n = parse_record(s);
                lemma_record_shape(n);
                lemma_record_chars(n);
                lemma_first_field(s, n.first_space(), a as int);
                lemma_next_field(s, a + 1, n.second_space(), b as int);
                lemma_next_field(s, b + 1, s.len() as int, c as int);
            }
        }
        return None;
    }
    let id = txn.substring_ascii(0, a).to_owned();
    let address = txn.substring_ascii(a + 1, b).to_owned();
    let verkey = txn.substring_ascii(b + 1, len).to_owned();
    let d = NodeDescriptor { id, address, verkey };
    proof {
        assert(is_token(d@.id));
        assert(is_token(d@.address));
        assert(is_token(d@.verkey));
        assert(d@.record() =~= s);
        lemma_parse_record(d@);
    }
    Some(d)
}

/// Every character of a record is a token character or a space.
proof fn lemma_record_chars(n: NodeView)
    requires
        n.wf(),
    ensures
        forall|i: int|
            0 <= i < n.record().len() ==> is_token_char(#[trigger] n.record()[i])
                || n.record()[i] == ' ',
        forall|i: int| 0 <= i < n.first_space() ==> is_token_char(#[trigger] n.record()[i]),
        forall|i: int|
            n.first_space() < i < n.second_space() ==> is_token_char(#[trigger] n.record()[i]),
        forall|i: int|
            n.second_space() < i < n.record().len() ==> is_token_char(#[trigger] n.record()[i]),
{
    let r = n.record();
    let a = n.id.len() as int;
    let b = n.address.len() as int;
    assert forall|i: int| 0 <= i < a implies is_token_char(#[trigger] r[i]) by {
        assert(r[i] == n.id[i]);
    }
    assert forall|i: int| a + 1 <= i < a + 1 + b implies is_token_char(#[trigger] r[i]) by {
        assert(r[i] == n.address[i - a - 1]);
    }
    assert forall|i: int| a + b + 2 <= i < r.len() implies is_token_char(#[trigger] r[i]) by {
        assert(r[i] == n.verkey[i - a - b - 2]);
    }
    assert forall|i: int| 0 <= i < r.len() implies is_token_char(#[trigger] r[i]) || r[i]
        == ' ' by {
        if i < a {
        } else if i == a {
        } else if i < a + 1 + b {
        } else if i == a + 1 + b {
        } else {
        }
    }
}

/// A run of token characters that ends at a space ends where the scan stops.
proof fn lemma_first_field(s: Seq<char>, end: int, found: int)
    requires
        0 <= end < s.len(),
        0 <= found <= s.len(),
        forall|i: int| 0 <= i < end ==> is_token_char(#[trigger] s[i]),
        s[end] == ' ',
        forall|i: int| 0 <= i < found ==> is_token_char(#[trigger] s[i]),
        found < s.len() ==> !is_token_char(s[found]),
    ensures
        found == end,
{
    if found < end {
        assert(is_token_char(s[found]));
    }
    if end < found {
        assert(is_token_char(s[end]));
    }
}

/// The same for a field that starts at `start` and runs to `end`, which is
/// the place of the next space or the end of the text.
proof fn lemma_next_field(s: Seq<char>, start: int, end: int, found: int)
    requires
        0 <= start <= end <= s.len(),
        start <= found <= s.len(),
        forall|i: int| start <= i < end ==> is_token_char(#[trigger] s[i]),
        end < s.len() ==> s[end] == ' ',
        forall|i: int| start <= i < found ==> is_token_char(#[trigger] s[i]),
        found < s.len() ==> !is_token_char(s[found]),
    ensures
        found == end,
{
    if found < end {
        assert(is_token_char(s[found]));
    }
    if end < found {
        assert(is_token_char(s[end]));
    }
}

/// The texts held by a vector of strings.
pub open spec fn text_views(v: Seq<String>) -> Seq<Seq<char>> {
    Seq::new(v.len(), |i: int| v[i]@)
}

/// The nodes held by a vector of descriptors.
pub open spec fn node_views(v: Seq<NodeDescriptor>) -> Seq<NodeView> {
    Seq::new(v.len(), |i: int| v[i]@)
}

/// Every transaction of the sequence is well formed.
pub open spec fn all_records(txns: Seq<Seq<char>>) -> bool {
    forall|i: int| 0 <= i < txns.len() ==> is_record(#[trigger] txns[i])
}

/// The roster of a sequence of transactions: one node for each, in order.
pub open spec fn roster_of(txns: Seq<Seq<char>>) -> Seq<NodeView> {
    Seq::new(txns.len(), |i: int| parse_record(txns[i]))
}

/// The leaf hashes of a sequence of transactions: each is hashed as the
/// bytes of its UTF-8 text.
pub open spec fn leaves_of(txns: Seq<Seq<char>>) -> Seq<Seq<u8>> {
    Seq::new(txns.len(), |i: int| leaf_hash(encode_utf8(txns[i])))
}

/// The trust anchor of a sequence of transactions.
pub open spec fn genesis_root(txns: Seq<Seq<char>>) -> Seq<u8> {
    merkle_root(leaves_of(txns))
}

/// The lines joined into one text, with a line feed between each two.
pub open spec fn join_lines(lines: Seq<Seq<char>>) -> Seq<char>
    decreases lines.len(),
{
    if lines.len() == 0 {
        Seq::empty()
    } else if lines.len() == 1 {
        lines[0]
    } else {
        join_lines(lines.drop_last()) + seq!['\n'] + lines.last()
    }
}

/// Reads every transaction of `txns`; `None` if one of them is malformed.
fn parse_all(txns: &[String]) -> (r: Option<Vec<NodeDescriptor>>)
    ensures
        r is Some <==> all_records(text_views(txns@)),
        r matches Some(nodes) ==> node_views(nodes@) == roster_of(text_views(txns@)),
{
    let ghost views = text_views(txns@);
    let mut nodes: Vec<NodeDescriptor> = Vec::new();
    let mut i: usize = 0;
    while i < txns.len()
        invariant
            i <= txns.len(),
            views == text_views(txns@),
            nodes.len() == i,
            forall|j: int| 0 <= j < i ==> is_record(#[trigger] views[j]),
            forall|j: int| 0 <= j < i ==> (#[trigger] nodes[j])@ == parse_record(views[j]),
        decreases txns.len() - i,
    {
        assert(views[i as int] == txns[i as int]@);
        match parse_transaction(txns[i].as_str()) {
            None => {
                return None;
            },
            Some(node) => {
                nodes.push(node);
            },
        }
        i = i + 1;
    }
    assert(node_views(nodes@) =~= roster_of(views));
    Some(nodes)
}

/// The genesis transactions of a pool, the roster they describe and the hash
/// tree that anchors them. A store is never empty.
pub struct GenesisStore {
    transactions: Vec<String>,
    nodes: Vec<NodeDescriptor>,
    tree: MerkleTree,
    root: Vec<u8>,
}

impl View for GenesisStore {
    type V = Seq<Seq<char>>;

    /// The transactions, in order.
    closed spec fn view(&self) -> Seq<Seq<char>> {
        text_views(self.transactions@)
    }
}

impl GenesisStore {
    /// The root hash that the store keeps.
    pub closed spec fn root(&self) -> Seq<u8> {
        self.root@
    }

    /// The roster that the store keeps.
    pub closed spec fn nodes(&self) -> Seq<NodeView> {
        node_views(self.nodes@)
    }

    /// The store holds at least one transaction, all of them well formed, and
    /// its roster and root hash are those of its transactions.
    pub closed spec fn wf(&self) -> bool {
        &&& self@.len() > 0
        &&& all_records(self@)
        &&& self.nodes() == roster_of(self@)
        &&& self.tree.leaves() == leaves_of(self@)
        &&& self.root() == genesis_root(self@)
    }

    /// What a well-formed store holds is determined by its transactions.
    pub proof fn lemma_wf(&self)
        requires
            self.wf(),
        ensures
            self@.len() > 0,
            all_records(self@),
            self.nodes() == roster_of(self@),
            self.nodes().len() == self@.len(),
            self.root() == genesis_root(self@),
    {
    }

    /// Builds the store of the given transactions.
    ///
    /// Fails with a configuration error where the sequence is empty or one
    /// of the transactions is malformed.
    pub fn build(transactions: &[String]) -> (r: VdrResult<GenesisStore>)
        ensures
            r is Ok <==> transactions@.len() > 0 && all_records(text_views(transactions@)),
            r matches Ok(store) ==> store.wf() && store@ == text_views(transactions@),
            r matches Err(e) ==> e == (if transactions@.len() == 0 {
                VdrError::Config(ConfigFault::NoTransactions)
            } else {
                VdrError::Config(ConfigFault::MalformedTransaction)
            }),
    {
        if transactions.len() == 0 {
            return Err(VdrError::Config(ConfigFault::NoTransactions));
        }
        let nodes = match parse_all(transactions) {
            None => {
                return Err(VdrError::Config(ConfigFault::MalformedTransaction));
            },
            Some(nodes) => nodes,
        };
        let mut tree = MerkleTree::new();
        let mut kept: Vec<String> = Vec::new();
        let ghost views = text_views(transactions@);
        let mut i: usize = 0;
        while i < transactions.len()
            invariant
                i <= transactions.len(),
                views == text_views(transactions@),
                kept.len() == i,
                forall|j: int| 0 <= j < i ==> (#[trigger] kept[j])@ == views[j],
                tree.leaves() == leaves_of(views.take(i as int)),
            decreases transactions.len() - i,
        {
            assert(views[i as int] == transactions[i as int]@);
            tree.append(transactions[i].as_str().as_bytes());
            kept.push(transactions[i].clone());
            assert(leaves_of(views.take(i + 1)) =~= leaves_of(views.take(i as int)).push(
                leaf_hash(encode_utf8(views[i as int])),
            ));
            i = i + 1;
        }
        assert(views.take(i as int) == views);
        assert(text_views(kept@) =~= views);
        let root = tree.root_hash();
        Ok(GenesisStore { transactions: kept, nodes, tree, root })
    }

    /// Appends transactions to the store. The transactions already held stay
    /// as they are, and the root hash becomes that of the longer sequence.
    ///
    /// Fails with a configuration error where one of the new transactions is
    /// malformed; the store is then left as it was.
    pub fn extend(&mut self, new_transactions: &[String]) -> (r: VdrResult<()>)
        requires
            old(self).wf(),
        ensures
            final(self).wf(),
            r is Ok <==> all_records(text_views(new_transactions@)),
            r is Ok ==> final(self)@ == old(self)@ + text_views(new_transactions@),
            r matches Err(e) ==> e == VdrError::Config(ConfigFault::MalformedTransaction)
                && final(self)@ == old(self)@ && final(self).root() == old(self).root()
                && final(self).nodes() == old(self).nodes(),
    {
        let parsed = match parse_all(new_transactions) {
            None => {
                return Err(VdrError::Config(ConfigFault::MalformedTransaction));
            },
            Some(parsed) => parsed,
        };
        let ghost before = self@;
        let ghost added = text_views(new_transactions@);
        assert(node_views(parsed@).len() == roster_of(added).len());
        let mut i: usize = 0;
        while i < new_transactions.len()
            invariant
                i <= new_transactions.len(),
                parsed.len() == new_transactions.len(),
                added == text_views(new_transactions@),
                node_views(parsed@) == roster_of(added),
                self@ == before + added.take(i as int),
                self.nodes() == roster_of(before) + roster_of(added).take(i as int),
                self.tree.leaves() == leaves_of(before) + leaves_of(added).take(i as int),
            decreases new_transactions.len() - i,
        {
            assert(added[i as int] == new_transactions[i as int]@);
            assert(node_views(parsed@)[i as int] == parsed[i as int]@);
            let ghost txns_then = self@;
            let ghost nodes_then = self.nodes();
            self.tree.append(new_transactions[i].as_str().as_bytes());
            self.transactions.push(new_transactions[i].clone());
            self.nodes.push(parsed[i].clone());
            assert(self@ =~= txns_then.push(added[i as int]));
            assert(self.nodes() =~= nodes_then.push(parsed[i as int]@));
            assert(added.take(i + 1) =~= added.take(i as int).push(added[i as int]));
            assert(roster_of(added).take(i + 1) =~= roster_of(added).take(i as int).push(
                parse_record(added[i as int]),
            ));
            assert(leaves_of(added).take(i + 1) =~= leaves_of(added).take(i as int).push(
                leaf_hash(encode_utf8(added[i as int])),
            ));
            assert(self@ =~= before + added.take(i + 1));
            assert(self.nodes() =~= roster_of(before) + roster_of(added).take(i + 1));
            assert(self.tree.leaves() =~= leaves_of(before) + leaves_of(added).take(i + 1));
            i = i + 1;
        }
        proof {
            assert(added.take(i as int) == added);
            assert(roster_of(added).take(i as int) == roster_of(added));
            assert(leaves_of(added).take(i as int) == leaves_of(added));
            assert(roster_of(before + added) =~= roster_of(before) + roster_of(added));
            assert(leaves_of(before + added) =~= leaves_of(before) + leaves_of(added));
        }
        self.root = self.tree.root_hash();
        Ok(())
    }

    /// Number of transactions, which is the number of nodes.
    pub fn len(&self) -> (n: usize)
        ensures
            n == self@.len(),
    {
        self.transactions.len()
    }

    /// The roster: one node for each transaction, in the order of the
    /// transactions.
    pub fn roster(&self) -> (out: Vec<NodeDescriptor>)
        requires
            self.wf(),
        ensures
            node_views(out@) == roster_of(self@),
    {
        let mut out: Vec<NodeDescriptor> = Vec::new();
        let mut i: usize = 0;
        while i < self.nodes.len()
            invariant
                i <= self.nodes.len(),
                out.len() == i,
                forall|j: int| 0 <= j < i ==> (#[trigger] out[j])@ == self.nodes[j]@,
            decreases self.nodes.len() - i,
        {
            out.push(self.nodes[i].clone());
            i = i + 1;
        }
        assert(node_views(out@) =~= node_views(self.nodes@));
        out
    }

    /// The trust anchor: the root hash of the tree over the transactions.
    pub fn root_hash(&self) -> (out: Vec<u8>)
        requires
            self.wf(),
        ensures
            out@ == genesis_root(self@),
    {
        let mut out: Vec<u8> = Vec::new();
        let mut i: usize = 0;
        while i < self.root.len()
            invariant
                i <= self.root.len(),
                out@ == self.root@.take(i as int),
            decreases self.root.len() - i,
        {
            out.push(self.root[i]);
            i = i + 1;
        }
        assert(self.root@.take(i as int) == self.root@);
        out
    }

    /// A copy of the store: the same transactions, roster and root hash.
    pub fn duplicate(&self) -> (out: GenesisStore)
        requires
            self.wf(),
        ensures
            out.wf(),
            out@ == self@,
            out.root() == self.root(),
            out.nodes() == self.nodes(),
    {
        let transactions = self.transactions();
        let nodes = self.roster();
        let tree = self.tree.duplicate();
        let root = self.root_hash();
        GenesisStore { transactions, nodes, tree, root }
    }

    /// The genesis log: the transactions, in order, one to a line.
    ///
    /// The log is read from the store alone: nothing is asked of any node.
    pub fn genesis_log(&self) -> (out: String)
        ensures
            out@ == join_lines(self@),
    {
        let mut out = String::new();
        let mut i: usize = 0;
        while i < self.transactions.len()
            invariant
                i <= self.transactions.len(),
                out@ == join_lines(self@.take(i as int)),
            decreases self.transactions.len() - i,
        {
            proof {
                reveal_strlit("\n");
                assert("\n"@ =~= seq!['\n']);
                assert(self@.take(i + 1).drop_last() == self@.take(i as int));
                assert(self@.take(i + 1).last() == self.transactions[i as int]@);
            }
            if i > 0 {
                out.append("\n");
            }
            out.append(self.transactions[i].as_str());
            i = i + 1;
        }
        assert(self@.take(i as int) == self@);
        out
    }

    /// The transactions, in order.
    pub fn transactions(&self) -> (out: Vec<String>)
        ensures
            text_views(out@) == self@,
    {
        let mut out: Vec<String> = Vec::new();
        let mut i: usize = 0;
        while i < self.transactions.len()
            invariant
                i <= self.transactions.len(),
                out.len() == i,
                forall|j: int| 0 <= j < i ==> (#[trigger] out[j])@ == self.transactions[j]@,
            decreases self.transactions.len() - i,
        {
            out.push(self.transactions[i].clone());
            i = i + 1;
        }
        assert(text_views(out@) =~= text_views(self.transactions@));
        out
    }
}

/// Stores that hold the same transactions have the same root hash and the
/// same roster, however and whenever each was built.
pub proof fn lemma_store_determined(a: GenesisStore, b: GenesisStore)
    requires
        a.wf(),
        b.wf(),
        a@ == b@,
    ensures
        a.root() == b.root(),
        a.nodes() == b.nodes(),
{
}

/// The genesis log of a store is determined by its transactions: read twice,
/// or from two stores that hold the same transactions, it is the same text.
pub proof fn lemma_genesis_log_determined(a: GenesisStore, b: GenesisStore)
    requires
        a@ == b@,
    ensures
        join_lines(a@) == join_lines(b@),
{
}

/// Extending a sequence of transactions keeps the roster and the leaves of
/// what was there: both only grow at the end.
pub proof fn lemma_extension_keeps_prefix(before: Seq<Seq<char>>, added: Seq<Seq<char>>)
    ensures
        roster_of(before + added).take(before.len() as int) == roster_of(before),
        leaves_of(before + added).take(before.len() as int) == leaves_of(before),
{
    assert(roster_of(before + added).take(before.len() as int) =~= roster_of(before));
    assert(leaves_of(before + added).take(before.len() as int) =~= leaves_of(before));
}

/// Place of the first line feed of `s`, or its length if it has none.
pub open spec fn first_newline(s: Seq<char>) -> int
    decreases s.len(),
{
    if s.len() == 0 || s[0] == '\n' {
        0
    } else {
        1 + first_newline(s.drop_first())
    }
}

/// The first line feed is the first: nothing before it is one.
pub proof fn lemma_first_newline(s: Seq<char>)
    ensures
        0 <= first_newline(s) <= s.len(),
        forall|i: int| 0 <= i < first_newline(s) ==> #[trigger] s[i] != '\n',
        first_newline(s) < s.len() ==> s[first_newline(s)] == '\n',
    decreases s.len(),
{
    if s.len() == 0 || s[0] == '\n' {
    } else {
        let t = s.drop_first();
        lemma_first_newline(t);
        assert forall|i: int| 0 <= i < first_newline(s) implies #[trigger] s[i] != '\n' by {
            if i > 0 {
                assert(s[i] == t[i - 1]);
            }
        }
        assert(first_newline(s) < s.len() ==> s[first_newline(s)] == t[first_newline(t)]);
    }
}

/// A place with no line feed before it, which holds one or is the end, is
/// the place of the first line feed.
pub proof fn lemma_first_newline_is(s: Seq<char>, at: int)
    requires
        0 <= at <= s.len(),
        forall|i: int| 0 <= i < at ==> #[trigger] s[i] != '\n',
        at < s.len() ==> s[at] == '\n',
    ensures
        first_newline(s) == at,
{
    lemma_first_newline(s);
    let f = first_newline(s);
    if f < at {
        assert(s[f] != '\n');
    }
    if at < f {
        assert(s[at] != '\n');
    }
}

/// A character that a blank line may hold.
pub open spec fn is_blank_char(c: char) -> bool {
    c == ' ' || c == '\t' || c == '\r'
}

/// A line that holds nothing but spaces, tabs and carriage returns.
pub open spec fn is_blank(line: Seq<char>) -> bool {
    forall|i: int| 0 <= i < line.len() ==> is_blank_char(#[trigger] line[i])
}

/// The line without the carriage return at its end, if it has one.
pub open spec fn strip_cr(line: Seq<char>) -> Seq<char> {
    if line.len() > 0 && line.last() == '\r' {
        line.drop_last()
    } else {
        line
    }
}

/// The transaction records of a genesis file: its lines, in order, each
/// ended by a line feed or by the end of the file, without the blank ones.
pub open spec fn file_records(s: Seq<char>) -> Seq<Seq<char>>
    decreases s.len(),
{
    if s.len() == 0 {
        Seq::empty()
    } else {
        let i = first_newline(s);
        proof {
            lemma_first_newline(s);
        }
        let line = s.take(i);
        let rest = if i < s.len() {
            s.skip(i + 1)
        } else {
            Seq::empty()
        };
        let head = if is_blank(line) {
            Seq::empty()
        } else {
            seq![strip_cr(line)]
        };
        head + file_records(rest)
    }
}

/// A file that holds a character outside ASCII holds a malformed record.
pub proof fn lemma_non_ascii_file(s: Seq<char>)
    requires
        !is_ascii_chars(s),
    ensures
        file_records(s).len() > 0,
        !all_records(file_records(s)),
    decreases s.len(),
{
    let p = choose|p: int| 0 <= p < s.len() && !('\0' <= #[trigger] s[p] <= '\u{7f}');
    lemma_first_newline(s);
    let i = first_newline(s);
    let line = s.take(i);
    let rest = if i < s.len() {
        s.skip(i + 1)
    } else {
        Seq::<char>::empty()
    };
    let head = if is_blank(line) {
        Seq::<Seq<char>>::empty()
    } else {
        seq![strip_cr(line)]
    };
    assert(file_records(s) == head + file_records(rest));
    if p < i {
        assert(line[p] == s[p]);
        assert(!is_blank_char(line[p]));
        let rec = strip_cr(line);
        assert(rec[p] == s[p]) by {
            if line.len() > 0 && line.last() == '\r' {
                assert(p != line.len() - 1);
            }
        }
        assert(file_records(s)[0] == rec);
        if is_record(rec) {
            let n = parse_record(rec);
            lemma_record_chars(n);
            assert(is_token_char(rec[p]) || rec[p] == ' ');
        }
    } else {
        assert(p != i);
        assert(rest[p - i - 1] == s[p]);
        lemma_non_ascii_file(rest);
        let k = choose|k: int|
            0 <= k < file_records(rest).len() && !is_record(#[trigger] file_records(rest)[k]);
        assert(file_records(s)[head.len() + k] == file_records(rest)[k]);
    }
}

/// A record holds no line feed, is not blank, and does not end in a
/// carriage return: as a line of a genesis file it stands for itself.
pub proof fn lemma_record_is_a_line(record: Seq<char>)
    requires
        is_record(record),
    ensures
        record.len() > 0,
        forall|i: int| 0 <= i < record.len() ==> #[trigger] record[i] != '\n',
        !is_blank(record),
        strip_cr(record) == record,
{
    let n = parse_record(record);
    lemma_record_shape(n);
    lemma_record_chars(n);
    assert(is_token_char(record[0]));
    assert(is_token_char(record[record.len() - 1]));
    assert(!is_blank_char(record[0]));
}

/// Joining lines puts the first line first.
pub proof fn lemma_join_lines_front(lines: Seq<Seq<char>>)
    requires
        lines.len() >= 2,
    ensures
        join_lines(lines) == lines[0] + seq!['\n'] + join_lines(lines.drop_first()),
    decreases lines.len(),
{
    let front = lines.drop_last();
    let rest = lines.drop_first();
    if lines.len() == 2 {
        assert(front.len() == 1);
        assert(rest.len() == 1);
        assert(join_lines(front) == lines[0]);
        assert(join_lines(rest) == lines[1]);
        assert(join_lines(lines) =~= lines[0] + seq!['\n'] + lines[1]);
    } else {
        lemma_join_lines_front(front);
        assert(front.drop_first() == rest.drop_last());
        assert(front[0] == lines[0]);
        assert(rest.last() == lines.last());
        assert(join_lines(rest) == join_lines(rest.drop_last()) + seq!['\n'] + rest.last());
        assert(join_lines(lines) =~= lines[0] + seq!['\n'] + join_lines(rest));
    }
}

/// The genesis log can be read back: the records of the text that joins
/// well-formed transactions, one to a line, are those transactions.
pub proof fn lemma_log_reads_back(txns: Seq<Seq<char>>)
    requires
        all_records(txns),
    ensures
        file_records(join_lines(txns)) == txns,
    decreases txns.len(),
{
    let text = join_lines(txns);
    if txns.len() == 0 {
        assert(file_records(text) =~= txns);
    } else {
        let first = txns[0];
        assert(is_record(first));
        lemma_record_is_a_line(first);
        if txns.len() == 1 {
            assert(text == first);
            lemma_first_newline_is(text, text.len() as int);
            assert(text.take(text.len() as int) == text);
            assert(file_records(Seq::<char>::empty()) =~= Seq::<Seq<char>>::empty());
            assert(file_records(text) =~= seq![first]);
            assert(seq![first] =~= txns);
        } else {
            let rest = txns.drop_first();
            lemma_join_lines_front(txns);
            let tail = join_lines(rest);
            assert(text == first + seq!['\n'] + tail);
            let at = first.len() as int;
            assert forall|i: int| 0 <= i < at implies #[trigger] text[i] != '\n' by {
                assert(text[i] == first[i]);
            }
            assert(text[at] == '\n');
            lemma_first_newline_is(text, at);
            assert(text.take(at) =~= first);
            assert(text.skip(at + 1) =~= tail);
            assert forall|i: int| 0 <= i < rest.len() implies is_record(#[trigger] rest[i]) by {
                assert(rest[i] == txns[i + 1]);
            }
            lemma_log_reads_back(rest);
            assert(file_records(text) == seq![first] + file_records(tail));
            assert(seq![first] + rest =~= txns);
        }
    }
}

/// Splits the text of a genesis file into its transaction records.
///
/// Returns `None` where the text holds a character outside ASCII: such a
/// file holds a malformed record.
pub fn read_records(contents: &str) -> (r: Option<Vec<String>>)
    ensures
        r is Some <==> is_ascii_chars(contents@),
        r matches Some(records) ==> text_views(records@) == file_records(contents@),
{
    if !contents.is_ascii() {
        return None;
    }
    let ghost s = contents@;
    let bytes = contents.as_bytes();
    proof {
        is_ascii_chars_encode_utf8(s);
    }
    let len: usize = bytes.len();
    let mut records: Vec<String> = Vec::new();
    let mut pos: usize = 0;
    proof {
        assert(s.skip(0) == s);
        assert(text_views(records@) + file_records(s) =~= file_records(s));
    }
    while pos < len
        invariant
            s == contents@,
            is_ascii_chars(s),
            len == s.len(),
            bytes@.len() == len,
            forall|i: int| 0 <= i < len ==> s[i] as u8 == #[trigger] bytes[i],
            pos <= len,
            file_records(s) == text_views(records@) + file_records(s.skip(pos as int)),
        decreases len - pos,
    {
        let ghost tail = s.skip(pos as int);
        let mut end: usize = pos;
        let mut blank: bool = true;
        while end < len && bytes[end] != 0x0a
            invariant
                s == contents@,
                is_ascii_chars(s),
                len == s.len(),
                bytes@.len() == len,
                forall|i: int| 0 <= i < len ==> s[i] as u8 == #[trigger] bytes[i],
                pos <= end <= len,
                forall|i: int| pos <= i < end ==> #[trigger] s[i] != '\n',
                blank <==> forall|i: int| pos <= i < end ==> is_blank_char(#[trigger] s[i]),
            decreases len - end,
        {
            let b: u8 = bytes[end];
            assert(s[end as int] as u8 == b);
            if !(b == 0x20 || b == 0x09 || b == 0x0d) {
                assert(!is_blank_char(s[end as int]));
                blank = false;
            } else {
                assert(is_blank_char(s[end as int]));
            }
            end = end + 1;
        }
        let ghost line = s.subrange(pos as int, end as int);
        proof {
            assert(end < len ==> s[end as int] == '\n') by {
                if end < len {
                    assert(s[end as int] as u8 == bytes[end as int]);
                }
            }
            assert forall|i: int| 0 <= i < end - pos implies #[trigger] tail[i] != '\n' by {
                assert(tail[i] == s[pos + i]);
            }
            lemma_first_newline_is(tail, end - pos);
            assert(tail.take(end - pos) =~= line);
            assert(blank <==> is_blank(line)) by {
                if blank {
                    assert forall|i: int| 0 <= i < line.len() implies is_blank_char(
                        #[trigger] line[i],
                    ) by {
                        assert(line[i] == s[pos + i]);
                    }
                } else {
                    let w = choose|w: int| pos <= w < end && !is_blank_char(#[trigger] s[w]);
                    assert(line[w - pos] == s[w]);
                }
            }
            if end < len {
                assert(tail.skip(end - pos + 1) =~= s.skip(end + 1));
            } else {
                assert(s.skip(len as int) =~= Seq::<char>::empty());
            }
        }
        let ghost before = text_views(records@);
        if !blank {
            assert(end > pos) by {
                if end == pos {
                    assert(is_blank(line));
                }
            }
            let mut stop: usize = end;
            if bytes[end - 1] == 0x0d {
                stop = end - 1;
            }
            proof {
                assert(s[end - 1] as u8 == bytes[end - 1]);
                assert(line.last() == s[end - 1]);
                assert(strip_cr(line) =~= s.subrange(pos as int, stop as int));
            }
            let record = contents.substring_ascii(pos, stop).to_owned();
            records.push(record);
            assert(text_views(records@) =~= before + seq![strip_cr(line)]);
        }
        if end < len {
            pos = end + 1;
        } else {
            pos = len;
        }
        proof {
            let head = if is_blank(line) {
                Seq::<Seq<char>>::empty()
            } else {
                seq![strip_cr(line)]
            };
            assert(file_records(tail) == head + file_records(s.skip(pos as int)));
            assert(text_views(records@) =~= before + head);
            assert(before + (head + file_records(s.skip(pos as int))) =~= (before + head)
                + file_records(s.skip(pos as int)));
        }
    }
    proof {
        assert(s.skip(len as int) =~= Seq::<char>::empty());
        assert(text_views(records@) + Seq::<Seq<char>>::empty() =~= text_views(records@));
    }
    Some(records)
}

} // verus!
