//! The pool factory: validates genesis transactions and configuration once,
//! and makes pools and runners from the validated state.

use crate::config::{config_error, PoolConfig, ProtocolVersion};
use crate::error::{ConfigFault, VdrError, VdrResult};
use crate::genesis::{
    all_records, file_records, genesis_root, lemma_non_ascii_file, read_records, text_views,
    GenesisStore,
};
use crate::pool::{LocalPool, PoolSetup, SharedPool};
use crate::runner::PoolRunner;
use vstd::prelude::*;

verus! {

/// Validated genesis transactions and a configuration, from which pools are
/// made. The hash tree over the transactions is built once, here.
pub struct PoolFactory {
    config: PoolConfig,
    genesis: GenesisStore,
}

/// What a factory holds, as plain values.
pub struct FactoryView {
    pub config: PoolConfig,
    pub transactions: Seq<Seq<char>>,
}

impl View for PoolFactory {
    type V = FactoryView;

    closed spec fn view(&self) -> FactoryView {
        FactoryView { config: self.config, transactions: self.genesis@ }
    }
}

/// The error of a sequence of genesis transactions, if it has one: it is
/// empty, or one of the transactions is malformed.
pub open spec fn transactions_error(txns: Seq<Seq<char>>) -> Option<VdrError> {
    if txns.len() == 0 {
        Some(VdrError::Config(ConfigFault::NoTransactions))
    } else if !all_records(txns) {
        Some(VdrError::Config(ConfigFault::MalformedTransaction))
    } else {
        None
    }
}

/// The error of the text of a genesis file, if it has one: it holds no
/// record, or one of its records is malformed.
pub open spec fn genesis_file_error(text: Seq<char>) -> Option<VdrError> {
    if file_records(text).len() == 0 {
        Some(VdrError::Config(ConfigFault::EmptyGenesisFile))
    } else if !all_records(file_records(text)) {
        Some(VdrError::Config(ConfigFault::MalformedTransaction))
    } else {
        None
    }
}

/// Builds the genesis store of the given transactions.
///
/// Fails where there is no transaction or one of them is malformed.
fn _load_transactions(transactions: &[String]) -> (r: VdrResult<GenesisStore>)
    ensures
        r is Ok <==> transactions_error(text_views(transactions@)) is None,
        r matches Ok(store) ==> store.wf() && store@ == text_views(transactions@),
        r matches Err(e) ==> Some(e) == transactions_error(text_views(transactions@)),
{
    if transactions.len() == 0 {
        return Err(VdrError::Config(ConfigFault::NoTransactions));
    }
    GenesisStore::build(transactions)
}

impl PoolFactory {
    /// The genesis store is well formed and the configuration is consistent
    /// in itself.
    pub closed spec fn wf(&self) -> bool {
        self.genesis.wf() && self.config.valid()
    }

    /// The root hash that the factory keeps: that of the hash tree over its
    /// transactions, which every pool it makes starts from.
    pub closed spec fn root(&self) -> Seq<u8> {
        self.genesis.root()
    }

    /// What a well-formed factory holds.
    pub proof fn lemma_wf(&self)
        requires
            self.wf(),
        ensures
            self@.transactions.len() > 0,
            all_records(self@.transactions),
            self@.config.valid(),
            self.root() == genesis_root(self@.transactions),
    {
        self.genesis.lemma_wf();
    }

    /// The trust anchor: the root hash of the tree over the factory's
    /// transactions.
    pub fn root_hash(&self) -> (out: Vec<u8>)
        requires
            self.wf(),
        ensures
            out@ == genesis_root(self@.transactions),
            out@ == self.root(),
    {
        proof {
            self.genesis.lemma_wf();
        }
        self.genesis.root_hash()
    }

    /// A factory for the given genesis transactions, with the default
    /// configuration.
    ///
    /// Fails with a configuration error where there is no transaction or
    /// one of them is malformed.
    pub fn from_transactions(transactions: &[String]) -> (r: VdrResult<PoolFactory>)
        ensures
            r is Ok <==> transactions_error(text_views(transactions@)) is None,
            r matches Ok(factory) ==> factory.wf() && factory@ == (FactoryView {
                config: PoolConfig::spec_default(),
                transactions: text_views(transactions@),
            }),
            r matches Err(e) ==> Some(e) == transactions_error(text_views(transactions@)),
    {
        match _load_transactions(transactions) {
            Err(e) => Err(e),
            Ok(genesis) => Ok(PoolFactory { config: PoolConfig::default(), genesis }),
        }
    }

    /// A factory for the genesis transactions in the text of a genesis file,
    /// with the default configuration. The argument is what the file holds,
    /// not its name: reading the file is the caller's part.
    ///
    /// The records of the file are its lines, without the blank ones. Fails
    /// with a configuration error where the file holds no record or one of
    /// its records is malformed.
    pub fn from_genesis_text(genesis_text: &str) -> (r: VdrResult<PoolFactory>)
        ensures
            r is Ok <==> genesis_file_error(genesis_text@) is None,
            r matches Ok(factory) ==> factory.wf() && factory@ == (FactoryView {
                config: PoolConfig::spec_default(),
                transactions: file_records(genesis_text@),
            }),
            r matches Err(e) ==> Some(e) == genesis_file_error(genesis_text@),
    {
        let records = match read_records(genesis_text) {
            None => {
                proof {
                    lemma_non_ascii_file(genesis_text@);
                }
                return Err(VdrError::Config(ConfigFault::MalformedTransaction));
            },
            Some(records) => records,
        };
        if records.len() == 0 {
            return Err(VdrError::Config(ConfigFault::EmptyGenesisFile));
        }
        PoolFactory::from_transactions(records.as_slice())
    }

    /// The configuration that pools are made with.
    pub fn get_config(&self) -> (config: PoolConfig)
        ensures
            config == self@.config,
    {
        self.config
    }

    /// Replaces the configuration, if it is consistent in itself.
    ///
    /// Fails with the configuration's fault, and keeps the old one, where it
    /// is not.
    pub fn set_config(&mut self, config: PoolConfig) -> (r: VdrResult<()>)
        requires
            old(self).wf(),
        ensures
            final(self).wf(),
            r is Ok <==> config.valid(),
            r is Ok ==> final(self)@ == (FactoryView {
                config,
                transactions: old(self)@.transactions,
            }),
            r matches Err(e) ==> Some(e) == config_error(config.fault()) && final(self)@ == old(
                self,
            )@,
    {
        match config.validate() {
            Err(e) => Err(e),
            Ok(()) => {
                self.config = config;
                Ok(())
            },
        }
    }

    /// The protocol version of the configuration.
    pub fn get_protocol_version(&self) -> (version: ProtocolVersion)
        ensures
            version == self@.config.protocol_version,
    {
        self.config.protocol_version
    }

    /// Sets the protocol version of the configuration.
    pub fn set_protocol_version(&mut self, version: ProtocolVersion)
        requires
            old(self).wf(),
        ensures
            final(self).wf(),
            final(self)@.transactions == old(self)@.transactions,
            final(self)@.config == (PoolConfig {
                protocol_version: version,
                ..old(self)@.config
            }),
    {
        self.config.protocol_version = version;
    }

    /// The genesis transactions, in order.
    pub fn get_transactions(self) -> (out: Vec<String>)
        ensures
            text_views(out@) == self@.transactions,
    {
        self.genesis.transactions()
    }

    /// Appends genesis transactions to those of the factory.
    ///
    /// Fails with a configuration error, and leaves the factory as it is,
    /// where one of the new transactions is malformed.
    pub fn add_transactions(&mut self, new_txns: &[String]) -> (r: VdrResult<()>)
        requires
            old(self).wf(),
        ensures
            final(self).wf(),
            r is Ok <==> all_records(text_views(new_txns@)),
            r is Ok ==> final(self)@ == (FactoryView {
                config: old(self)@.config,
                transactions: old(self)@.transactions + text_views(new_txns@),
            }),
            r matches Err(e) ==> e == VdrError::Config(ConfigFault::MalformedTransaction)
                && final(self)@ == old(self)@,
    {
        self.genesis.extend(new_txns)
    }

    /// Replaces the genesis transactions of the factory.
    ///
    /// Fails with a configuration error, and leaves the factory as it is,
    /// where there is no transaction or one of them is malformed.
    pub fn set_transactions(&mut self, transactions: &[String]) -> (r: VdrResult<()>)
        requires
            old(self).wf(),
        ensures
            final(self).wf(),
            r is Ok <==> transactions_error(text_views(transactions@)) is None,
            r is Ok ==> final(self)@ == (FactoryView {
                config: old(self)@.config,
                transactions: text_views(transactions@),
            }),
            r matches Err(e) ==> Some(e) == transactions_error(text_views(transactions@))
                && final(self)@ == old(self)@,
    {
        match _load_transactions(transactions) {
            Err(e) => Err(e),
            Ok(genesis) => {
                self.genesis = genesis;
                Ok(())
            },
        }
    }

    /// The setup of a pool made now: a copy of the genesis store and the
    /// configuration, checked against the size of the roster.
    fn setup(&self) -> (r: VdrResult<PoolSetup>)
        requires
            self.wf(),
        ensures
            r is Ok <==> self@.config.valid_for(self@.transactions.len()),
            r matches Ok(setup) ==> setup.wf() && setup@.config == self@.config
                && setup@.transactions == self@.transactions,
            r matches Err(e) ==> e == VdrError::Config(ConfigFault::QuorumExceedsRoster),
    {
        PoolSetup::build(self.config, self.genesis.duplicate())
    }

    /// Makes a pool for one thread of control.
    ///
    /// Fails with `QuorumExceedsRoster` where the quorum threshold is larger
    /// than the roster; else the pool starts from the factory's transactions
    /// and configuration.
    pub fn create_local(&self) -> (r: VdrResult<LocalPool>)
        requires
            self.wf(),
        ensures
            r is Ok <==> self@.config.valid_for(self@.transactions.len()),
            r matches Ok(pool) ==> pool.wf() && pool.config() == self@.config && pool.initial()
                == self@.transactions,
            r matches Err(e) ==> e == VdrError::Config(ConfigFault::QuorumExceedsRoster),
    {
        match self.setup() {
            Err(e) => Err(e),
            Ok(setup) => Ok(LocalPool::build(setup)),
        }
    }

    /// Makes a pool that may be used from many threads.
    ///
    /// Fails with `QuorumExceedsRoster` where the quorum threshold is larger
    /// than the roster; else the pool starts from the factory's transactions
    /// and configuration.
    pub fn create_shared(&self) -> (r: VdrResult<SharedPool>)
        requires
            self.wf(),
        ensures
            r is Ok <==> self@.config.valid_for(self@.transactions.len()),
            r matches Ok(pool) ==> pool.config() == self@.config && pool.initial()
                == self@.transactions,
            r matches Err(e) ==> e == VdrError::Config(ConfigFault::QuorumExceedsRoster),
    {
        match self.setup() {
            Err(e) => Err(e),
            Ok(setup) => Ok(SharedPool::build(setup)),
        }
    }

    /// Makes a runner that owns a pool of its own.
    ///
    /// Fails with `QuorumExceedsRoster` where the quorum threshold is larger
    /// than the roster; else the runner takes commands and has none in
    /// flight.
    pub fn create_runner(&self) -> (r: VdrResult<PoolRunner>)
        requires
            self.wf(),
        ensures
            r is Ok <==> self@.config.valid_for(self@.transactions.len()),
            r matches Ok(runner) ==> runner.wf() && runner.accepting() && runner.ids().len() == 0
                && runner.config() == self@.config && runner.initial() == self@.transactions,
            r matches Err(e) ==> e == VdrError::Config(ConfigFault::QuorumExceedsRoster),
    {
        match self.create_local() {
            Err(e) => Err(e),
            Ok(pool) => Ok(PoolRunner::new(pool)),
        }
    }
}

} // verus!
