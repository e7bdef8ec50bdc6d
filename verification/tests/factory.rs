use indy_vdr::config::{PoolConfig, ProtocolVersion};
use indy_vdr::error::{ConfigFault, RequestFault, VdrError, VdrErrorKind};
use indy_vdr::factory::PoolFactory;
use indy_vdr::pool::{OutboundRequest, Target};

fn genesis(n: usize) -> Vec<String> {
    (1..=n)
        .map(|i| format!("Node{} 10.0.0.{}:9701 verkey{}", i, i, i))
        .collect()
}

#[test]
fn from_transactions_takes_valid_transactions() {
    let factory = PoolFactory::from_transactions(&genesis(4)).unwrap();
    assert_eq!(factory.get_config(), PoolConfig::default());
    assert_eq!(factory.get_protocol_version(), ProtocolVersion::Node1_4);
    assert_eq!(factory.get_transactions(), genesis(4));
}

#[test]
fn from_transactions_refuses_empty_and_malformed() {
    let none: Vec<String> = Vec::new();
    assert!(matches!(
        PoolFactory::from_transactions(&none),
        Err(VdrError::Config(ConfigFault::NoTransactions))
    ));
    let mut bad = genesis(2);
    bad.push("Node3 missing-key".to_string());
    assert!(matches!(
        PoolFactory::from_transactions(&bad),
        Err(VdrError::Config(ConfigFault::MalformedTransaction))
    ));
}

#[test]
fn empty_genesis_file_is_a_config_error() {
    for text in ["", "\n", "\r\n \n\t\n"] {
        let r = PoolFactory::from_genesis_text(text);
        assert!(matches!(
            r,
            Err(VdrError::Config(ConfigFault::EmptyGenesisFile))
        ));
    }
}

#[test]
fn genesis_file_with_records() {
    let text = "Node1 10.0.0.1:9701 verkey1\n\nNode2 10.0.0.2:9701 verkey2\r\nNode3 10.0.0.3:9701 verkey3\n";
    let factory = PoolFactory::from_genesis_text(text).unwrap();
    assert_eq!(factory.get_transactions(), genesis(3));
}

#[test]
fn genesis_file_with_malformed_record() {
    let text = "Node1 10.0.0.1:9701 verkey1\nNode2 10.0.0.2:9701\n";
    assert!(matches!(
        PoolFactory::from_genesis_text(text),
        Err(VdrError::Config(ConfigFault::MalformedTransaction))
    ));
    let text = "Node1 10.0.0.1:9701 verkey1\nN\u{f8}de2 10.0.0.2:9701 verkey2\n";
    assert!(matches!(
        PoolFactory::from_genesis_text(text),
        Err(VdrError::Config(ConfigFault::MalformedTransaction))
    ));
    let text = "\u{a0}\n";
    assert!(matches!(
        PoolFactory::from_genesis_text(text),
        Err(VdrError::Config(ConfigFault::MalformedTransaction))
    ));
}

#[test]
fn set_config_validates() {
    let mut factory = PoolFactory::from_transactions(&genesis(4)).unwrap();
    let good = PoolConfig {
        request_read_nodes: 4,
        quorum_threshold: 3,
        ..PoolConfig::default()
    };
    assert_eq!(factory.set_config(good), Ok(()));
    assert_eq!(factory.get_config(), good);
    let zero_timeout = PoolConfig { reply_timeout: 0, ..good };
    assert_eq!(
        factory.set_config(zero_timeout),
        Err(VdrError::Config(ConfigFault::ZeroLimit))
    );
    let zero_quorum = PoolConfig { quorum_threshold: 0, ..good };
    assert_eq!(
        factory.set_config(zero_quorum),
        Err(VdrError::Config(ConfigFault::ZeroQuorum))
    );
    let narrow = PoolConfig { request_read_nodes: 2, ..good };
    assert_eq!(
        factory.set_config(narrow),
        Err(VdrError::Config(ConfigFault::ReadNodesBelowQuorum))
    );
    assert_eq!(factory.get_config(), good);
}

#[test]
fn set_protocol_version_changes_only_the_version() {
    let mut factory = PoolFactory::from_transactions(&genesis(4)).unwrap();
    factory.set_protocol_version(ProtocolVersion::Node1_3);
    assert_eq!(factory.get_protocol_version(), ProtocolVersion::Node1_3);
    assert_eq!(
        factory.get_config(),
        PoolConfig {
            protocol_version: ProtocolVersion::Node1_3,
            ..PoolConfig::default()
        }
    );
}

#[test]
fn add_and_set_transactions() {
    let all = genesis(4);
    let mut factory = PoolFactory::from_transactions(&all[..2]).unwrap();
    assert_eq!(factory.add_transactions(&all[2..3]), Ok(()));
    assert_eq!(
        factory.add_transactions(&vec!["bad".to_string()]),
        Err(VdrError::Config(ConfigFault::MalformedTransaction))
    );
    let none: Vec<String> = Vec::new();
    assert_eq!(factory.add_transactions(&none), Ok(()));
    assert_eq!(
        factory.set_transactions(&none),
        Err(VdrError::Config(ConfigFault::NoTransactions))
    );
    assert_eq!(
        factory.set_transactions(&vec!["a b".to_string()]),
        Err(VdrError::Config(ConfigFault::MalformedTransaction))
    );
    let pool = factory.create_local().unwrap();
    assert_eq!(pool.snapshot().get_transactions(), all[..3].to_vec());
    assert_eq!(factory.set_transactions(&all[1..]), Ok(()));
    assert_eq!(factory.get_transactions(), all[1..].to_vec());
}

#[test]
fn pools_share_the_validated_state() {
    let factory = PoolFactory::from_transactions(&genesis(4)).unwrap();
    let local = factory.create_local().unwrap();
    let shared = factory.create_shared().unwrap();
    assert_eq!(local.snapshot().root_hash(), shared.snapshot().root_hash());
    assert_eq!(local.snapshot().config(), PoolConfig::default());
    assert_eq!(shared.snapshot().get_transactions(), genesis(4));
    let mut runner = factory.create_runner().unwrap();
    assert!(runner.is_accepting());
    let request = OutboundRequest {
        request_id: 1,
        payload: vec![0],
        target: Target::Node(7),
        deadline: 10,
    };
    assert_eq!(
        runner.submit(request, 0),
        Err(VdrError::Request(RequestFault::UnknownNode))
    );
}

#[test]
fn create_fails_where_quorum_exceeds_roster() {
    let factory = PoolFactory::from_transactions(&genesis(1)).unwrap();
    assert!(matches!(
        factory.create_local(),
        Err(VdrError::Config(ConfigFault::QuorumExceedsRoster))
    ));
    assert!(matches!(
        factory.create_shared(),
        Err(VdrError::Config(ConfigFault::QuorumExceedsRoster))
    ));
    assert!(matches!(
        factory.create_runner(),
        Err(VdrError::Config(ConfigFault::QuorumExceedsRoster))
    ));
}

#[test]
fn single_node_roster_works_with_threshold_one() {
    let mut factory = PoolFactory::from_transactions(&genesis(1)).unwrap();
    let one = PoolConfig {
        request_read_nodes: 1,
        quorum_threshold: 1,
        ..PoolConfig::default()
    };
    assert_eq!(factory.set_config(one), Ok(()));
    assert!(factory.create_local().is_ok());
}

#[test]
fn config_validation_alone_and_for_a_roster() {
    let c = PoolConfig::default();
    assert_eq!(c.validate(), Ok(()));
    assert_eq!(c.validate_for(2), Ok(()));
    assert_eq!(
        c.validate_for(1),
        Err(VdrError::Config(ConfigFault::QuorumExceedsRoster))
    );
    assert_eq!(c.fan_out(1), 1);
    assert_eq!(c.fan_out(2), 2);
    assert_eq!(c.fan_out(100), 2);
    let broken = PoolConfig { ack_timeout: 0, quorum_threshold: 0, ..c };
    assert_eq!(
        broken.validate_for(4),
        Err(VdrError::Config(ConfigFault::ZeroLimit))
    );
    for bad in [
        PoolConfig { conn_request_limit: 0, ..c },
        PoolConfig { conn_active_timeout: 0, ..c },
        PoolConfig { reply_timeout: 0, ..c },
    ] {
        assert_eq!(bad.validate(), Err(VdrError::Config(ConfigFault::ZeroLimit)));
    }
}

#[test]
fn protocol_version_numbers() {
    assert_eq!(ProtocolVersion::Node1_3.to_id(), 1);
    assert_eq!(ProtocolVersion::Node1_4.to_id(), 2);
    assert_eq!(ProtocolVersion::from_id(1), Ok(ProtocolVersion::Node1_3));
    assert_eq!(ProtocolVersion::from_id(2), Ok(ProtocolVersion::Node1_4));
    assert_eq!(
        ProtocolVersion::from_id(0),
        Err(VdrError::Config(ConfigFault::UnknownProtocolVersion))
    );
    assert_eq!(
        ProtocolVersion::from_id(3),
        Err(VdrError::Config(ConfigFault::UnknownProtocolVersion))
    );
    assert_eq!(ProtocolVersion::default(), ProtocolVersion::Node1_4);
}

#[test]
fn error_kinds_and_messages() {
    assert_eq!(
        VdrError::Config(ConfigFault::NoTransactions).kind(),
        VdrErrorKind::Config
    );
    assert_eq!(VdrError::Connection.kind(), VdrErrorKind::Connection);
    assert_eq!(VdrError::Timeout.kind(), VdrErrorKind::Timeout);
    assert_eq!(VdrError::NoConsensus.kind(), VdrErrorKind::NoConsensus);
    assert_eq!(
        VdrError::Request(RequestFault::EmptyRequest).kind(),
        VdrErrorKind::Request
    );
    assert_eq!(VdrError::Cancelled.kind(), VdrErrorKind::Cancelled);
    assert_eq!(
        VdrError::Config(ConfigFault::NoTransactions).message(),
        "No genesis transactions"
    );
    assert_eq!(
        VdrError::Config(ConfigFault::EmptyGenesisFile).message(),
        "Empty genesis transaction file"
    );
    assert_eq!(VdrError::NoConsensus.message(), "No consensus among the nodes");
    assert_eq!(VdrError::Cancelled.message(), "Request cancelled");
}

#[test]
fn genesis_log_reads_back_as_a_genesis_file() {
    let factory = PoolFactory::from_transactions(&genesis(4)).unwrap();
    let pool = factory.create_local().unwrap();
    let log = pool.snapshot().genesis_log();
    let again = PoolFactory::from_genesis_text(&log).unwrap();
    assert_eq!(
        again.create_local().unwrap().snapshot().root_hash(),
        pool.snapshot().root_hash()
    );
    assert_eq!(again.get_transactions(), genesis(4));
}

#[test]
fn a_file_name_is_not_the_text_of_a_file() {
    assert!(matches!(
        PoolFactory::from_genesis_text("genesis.txn"),
        Err(VdrError::Config(ConfigFault::MalformedTransaction))
    ));
}

#[test]
fn factory_root_hash_is_that_of_its_transactions() {
    let mut factory = PoolFactory::from_transactions(&genesis(3)).unwrap();
    let pool = factory.create_local().unwrap();
    assert_eq!(factory.root_hash(), pool.snapshot().root_hash());
    assert_eq!(factory.root_hash().len(), 32);
    let before = factory.root_hash();
    assert_eq!(factory.add_transactions(&genesis(4)[3..]), Ok(()));
    assert_ne!(factory.root_hash(), before);
    let full = PoolFactory::from_transactions(&genesis(4)).unwrap();
    assert_eq!(factory.root_hash(), full.root_hash());
}
