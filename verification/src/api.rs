//! API keys, the versions of each that are served, and error codes.

use vstd::prelude::*;

verus! {

/// Kafka principal used for ACL checks on the shim port (no SASL).
pub const KAFKA_ANONYMOUS_PRINCIPAL: &'static str = "kafka-anonymous";

/// Kafka error codes we emit (subset of the official table).
#[derive(Debug, Clone, Copy, PartialEq, Eq, Structural)]
pub enum KafkaErrorCode {
    /// No error.
    NoError,
    /// Unexpected server failure.
    Unknown,
    /// Offset out of range.
    OffsetOutOfRange,
    /// Corrupt message.
    CorruptMessage,
    /// Unknown topic or partition.
    UnknownTopicOrPartition,
    /// Invalid message size / args.
    InvalidMessage,
    /// Not leader for partition.
    NotLeaderForPartition,
    /// Request timed out (unused).
    RequestTimedOut,
    /// Broker not available.
    BrokerNotAvailable,
    /// Message too large.
    MessageTooLarge,
    /// Network exception (unused).
    NetworkException,
    /// Not enough in-sync replicas (DeleteRecords majority-wait failure).
    NotEnoughReplicas,
    /// Invalid topic name / args.
    InvalidTopicException,
    /// Invalid request.
    InvalidRequest,
    /// Unsupported version for this API.
    UnsupportedVersion,
    /// Topic authorization failed.
    TopicAuthorizationFailed,
    /// Cluster authorization failed.
    ClusterAuthorizationFailed,
    /// Topic already exists (CreateTopics).
    TopicAlreadyExists,
    /// Invalid partition count.
    InvalidPartitions,
    /// Invalid replica assignment (AlterPartitionReassignments).
    InvalidReplicaAssignment,
    /// Invalid timestamp in ListOffsets.
    InvalidTimestamp,
    /// Not coordinator for group.
    NotCoordinator,
    /// Illegal generation.
    IllegalGeneration,
    /// Unknown member id.
    UnknownMemberId,
    /// Rebalance in progress.
    RebalanceInProgress,
    /// Group authorization failed.
    GroupAuthorizationFailed,
    /// Group still has active members (DeleteGroups).
    NonEmptyGroup,
    /// Group id not found (DeleteGroups).
    GroupIdNotFound,
    /// Fetch session id not found (Fetch v7+ sessions).
    FetchSessionIdNotFound,
    /// Invalid fetch session epoch (Fetch v7+ sessions).
    InvalidFetchSessionEpoch,
    /// A commit on the partition is still pending (OffsetFetch with stable offsets
    /// required).
    UnstableOffsetCommit,
    /// No reassignment in progress (AlterPartitionReassignments cancel).
    NoReassignmentInProgress,
    /// No eligible leader among the live in-sync replicas (ElectLeaders). Unclean
    /// elections are refused with this code.
    EligibleLeadersNotAvailable,
    /// Invalid config.
    InvalidConfig,
    /// Not controller for this request.
    NotController,
    /// Out of order sequence number (idempotent produce).
    OutOfOrderSequenceNumber,
    /// Invalid producer epoch.
    InvalidProducerEpoch,
    /// Invalid transaction state.
    InvalidTxnState,
    /// Client transaction timeout exceeds broker max.
    InvalidTransactionTimeout,
    /// Unsupported SASL mechanism.
    UnsupportedSaslMechanism,
    /// SASL authentication failed.
    SaslAuthenticationFailed,
    /// Unknown producer id.
    UnknownProducerId,
    /// Fenced leader epoch (OffsetForLeaderEpoch / Fetch fencing).
    FencedLeaderEpoch,
    /// Unknown leader epoch.
    UnknownLeaderEpoch,
    /// Producer fenced (epoch / transactional id fencing).
    ProducerFenced,
    /// Resource not found (Describe/AlterUserScramCredentials unknown user).
    ResourceNotFound,
    /// Feature update failed (UpdateFeatures).
    FeatureUpdateFailed,
    /// Unknown topic id (Metadata by TopicId).
    UnknownTopicId,
    /// Transactional id not found (DescribeTransactions).
    TransactionalIdNotFound,
    /// Unsupported endpoint type (DescribeCluster v1+).
    UnsupportedEndpointType,
    /// Transaction abortable.
    TransactionAbortable,
}

impl KafkaErrorCode {
    /// The number of the code on the wire.
    pub open spec fn code(self) -> i16 {
        match self {
            KafkaErrorCode::NoError => 0i16,
            KafkaErrorCode::Unknown => (-1int) as i16,
            KafkaErrorCode::OffsetOutOfRange => 1,
            KafkaErrorCode::CorruptMessage => 2,
            KafkaErrorCode::UnknownTopicOrPartition => 3,
            KafkaErrorCode::InvalidMessage => 4,
            KafkaErrorCode::NotLeaderForPartition => 6,
            KafkaErrorCode::RequestTimedOut => 7,
            KafkaErrorCode::BrokerNotAvailable => 8,
            KafkaErrorCode::MessageTooLarge => 10,
            KafkaErrorCode::NetworkException => 13,
            KafkaErrorCode::NotEnoughReplicas => 19,
            KafkaErrorCode::InvalidTopicException => 17,
            KafkaErrorCode::InvalidRequest => 42,
            KafkaErrorCode::UnsupportedVersion => 35,
            KafkaErrorCode::TopicAuthorizationFailed => 29,
            KafkaErrorCode::ClusterAuthorizationFailed => 31,
            KafkaErrorCode::TopicAlreadyExists => 36,
            KafkaErrorCode::InvalidPartitions => 37,
            KafkaErrorCode::InvalidReplicaAssignment => 39,
            KafkaErrorCode::InvalidTimestamp => 32,
            KafkaErrorCode::NotCoordinator => 16,
            KafkaErrorCode::IllegalGeneration => 22,
            KafkaErrorCode::UnknownMemberId => 25,
            KafkaErrorCode::RebalanceInProgress => 27,
            KafkaErrorCode::GroupAuthorizationFailed => 30,
            KafkaErrorCode::NonEmptyGroup => 68,
            KafkaErrorCode::GroupIdNotFound => 69,
            KafkaErrorCode::FetchSessionIdNotFound => 70,
            KafkaErrorCode::InvalidFetchSessionEpoch => 71,
            KafkaErrorCode::UnstableOffsetCommit => 81,
            KafkaErrorCode::NoReassignmentInProgress => 83,
            KafkaErrorCode::EligibleLeadersNotAvailable => 87,
            KafkaErrorCode::InvalidConfig => 40,
            KafkaErrorCode::NotController => 41,
            KafkaErrorCode::OutOfOrderSequenceNumber => 45,
            KafkaErrorCode::InvalidProducerEpoch => 47,
            KafkaErrorCode::InvalidTxnState => 48,
            KafkaErrorCode::InvalidTransactionTimeout => 50,
            KafkaErrorCode::UnsupportedSaslMechanism => 33,
            KafkaErrorCode::SaslAuthenticationFailed => 58,
            KafkaErrorCode::UnknownProducerId => 59,
            KafkaErrorCode::FencedLeaderEpoch => 74,
            KafkaErrorCode::UnknownLeaderEpoch => 75,
            KafkaErrorCode::ProducerFenced => 90,
            KafkaErrorCode::ResourceNotFound => 91,
            KafkaErrorCode::FeatureUpdateFailed => 92,
            KafkaErrorCode::UnknownTopicId => 100,
            KafkaErrorCode::TransactionalIdNotFound => 105,
            KafkaErrorCode::UnsupportedEndpointType => 115,
            KafkaErrorCode::TransactionAbortable => 123,
        }
    }

    /// The number of the code on the wire.
    pub fn as_i16(self) -> (c: i16)
        ensures
            c == self.code(),
    {
        match self {
            KafkaErrorCode::NoError => 0,
            KafkaErrorCode::Unknown => -1,
            KafkaErrorCode::OffsetOutOfRange => 1,
            KafkaErrorCode::CorruptMessage => 2,
            KafkaErrorCode::UnknownTopicOrPartition => 3,
            KafkaErrorCode::InvalidMessage => 4,
            KafkaErrorCode::NotLeaderForPartition => 6,
            KafkaErrorCode::RequestTimedOut => 7,
            KafkaErrorCode::BrokerNotAvailable => 8,
            KafkaErrorCode::MessageTooLarge => 10,
            KafkaErrorCode::NetworkException => 13,
            KafkaErrorCode::NotEnoughReplicas => 19,
            KafkaErrorCode::InvalidTopicException => 17,
            KafkaErrorCode::InvalidRequest => 42,
            KafkaErrorCode::UnsupportedVersion => 35,
            KafkaErrorCode::TopicAuthorizationFailed => 29,
            KafkaErrorCode::ClusterAuthorizationFailed => 31,
            KafkaErrorCode::TopicAlreadyExists => 36,
            KafkaErrorCode::InvalidPartitions => 37,
            KafkaErrorCode::InvalidReplicaAssignment => 39,
            KafkaErrorCode::InvalidTimestamp => 32,
            KafkaErrorCode::NotCoordinator => 16,
            KafkaErrorCode::IllegalGeneration => 22,
            KafkaErrorCode::UnknownMemberId => 25,
            KafkaErrorCode::RebalanceInProgress => 27,
            KafkaErrorCode::GroupAuthorizationFailed => 30,
            KafkaErrorCode::NonEmptyGroup => 68,
            KafkaErrorCode::GroupIdNotFound => 69,
            KafkaErrorCode::FetchSessionIdNotFound => 70,
            KafkaErrorCode::InvalidFetchSessionEpoch => 71,
            KafkaErrorCode::UnstableOffsetCommit => 81,
            KafkaErrorCode::NoReassignmentInProgress => 83,
            KafkaErrorCode::EligibleLeadersNotAvailable => 87,
            KafkaErrorCode::InvalidConfig => 40,
            KafkaErrorCode::NotController => 41,
            KafkaErrorCode::OutOfOrderSequenceNumber => 45,
            KafkaErrorCode::InvalidProducerEpoch => 47,
            KafkaErrorCode::InvalidTxnState => 48,
            KafkaErrorCode::InvalidTransactionTimeout => 50,
            KafkaErrorCode::UnsupportedSaslMechanism => 33,
            KafkaErrorCode::SaslAuthenticationFailed => 58,
            KafkaErrorCode::UnknownProducerId => 59,
            KafkaErrorCode::FencedLeaderEpoch => 74,
            KafkaErrorCode::UnknownLeaderEpoch => 75,
            KafkaErrorCode::ProducerFenced => 90,
            KafkaErrorCode::ResourceNotFound => 91,
            KafkaErrorCode::FeatureUpdateFailed => 92,
            KafkaErrorCode::UnknownTopicId => 100,
            KafkaErrorCode::TransactionalIdNotFound => 105,
            KafkaErrorCode::UnsupportedEndpointType => 115,
            KafkaErrorCode::TransactionAbortable => 123,
        }
    }
}

/// Two codes with the same number are the same code.
pub proof fn law_codes_distinct(a: KafkaErrorCode, b: KafkaErrorCode)
    ensures
        a.code() == b.code() ==> a == b,
{
}

/// The wire code for a Volant group error code.
pub open spec fn group_error(volant: u16) -> i16 {
    if volant == 0 {
        KafkaErrorCode::NoError.code()
    } else if volant == 9 {
        KafkaErrorCode::RebalanceInProgress.code()
    } else if volant == 10 {
        KafkaErrorCode::UnknownMemberId.code()
    } else if volant == 11 {
        KafkaErrorCode::IllegalGeneration.code()
    } else {
        KafkaErrorCode::Unknown.code()
    }
}

/// Map Volant group error codes to Kafka wire error codes.
pub fn map_group_error(volant: u16) -> (c: i16)
    ensures
        c == group_error(volant),
{
    match volant {
        0 => KafkaErrorCode::NoError.as_i16(),
        9 => KafkaErrorCode::RebalanceInProgress.as_i16(),
        10 => KafkaErrorCode::UnknownMemberId.as_i16(),
        11 => KafkaErrorCode::IllegalGeneration.as_i16(),
        _ => KafkaErrorCode::Unknown.as_i16(),
    }
}

/// The wire code for a Volant idempotent or transactional error code.
pub open spec fn idempotent_error(volant: u16) -> i16 {
    if volant == 19 {
        KafkaErrorCode::InvalidProducerEpoch.code()
    } else if volant == 20 {
        KafkaErrorCode::OutOfOrderSequenceNumber.code()
    } else if volant == 21 {
        KafkaErrorCode::UnknownProducerId.code()
    } else if volant == 22 {
        KafkaErrorCode::InvalidTxnState.code()
    } else if volant == 24 {
        KafkaErrorCode::TransactionAbortable.code()
    } else {
        KafkaErrorCode::Unknown.code()
    }
}

/// Map Volant idempotent/txn error codes to Kafka wire codes.
pub fn map_idempotent_error(volant: u16) -> (c: i16)
    ensures
        c == idempotent_error(volant),
{
    match volant {
        19 => KafkaErrorCode::InvalidProducerEpoch.as_i16(),
        20 => KafkaErrorCode::OutOfOrderSequenceNumber.as_i16(),
        21 => KafkaErrorCode::UnknownProducerId.as_i16(),
        22 => KafkaErrorCode::InvalidTxnState.as_i16(),
        24 => KafkaErrorCode::TransactionAbortable.as_i16(),
        _ => KafkaErrorCode::Unknown.as_i16(),
    }
}

/// Kafka API keys supported by the shim.
#[derive(Debug, Clone, Copy, PartialEq, Eq, Structural)]
pub enum ApiKey {
    /// Produce.
    Produce,
    /// Fetch.
    Fetch,
    /// ListOffsets.
    ListOffsets,
    /// Metadata.
    Metadata,
    /// OffsetCommit.
    OffsetCommit,
    /// OffsetFetch.
    OffsetFetch,
    /// FindCoordinator.
    FindCoordinator,
    /// JoinGroup.
    JoinGroup,
    /// Heartbeat.
    Heartbeat,
    /// LeaveGroup.
    LeaveGroup,
    /// SyncGroup.
    SyncGroup,
    /// DescribeGroups.
    DescribeGroups,
    /// ListGroups.
    ListGroups,
    /// SaslHandshake.
    SaslHandshake,
    /// ApiVersions.
    ApiVersions,
    /// CreateTopics.
    CreateTopics,
    /// DeleteTopics.
    DeleteTopics,
    /// DeleteRecords.
    DeleteRecords,
    /// InitProducerId.
    InitProducerId,
    /// OffsetForLeaderEpoch.
    OffsetForLeaderEpoch,
    /// AddPartitionsToTxn.
    AddPartitionsToTxn,
    /// AddOffsetsToTxn.
    AddOffsetsToTxn,
    /// EndTxn.
    EndTxn,
    /// TxnOffsetCommit.
    TxnOffsetCommit,
    /// DescribeAcls.
    DescribeAcls,
    /// CreateAcls.
    CreateAcls,
    /// DeleteAcls.
    DeleteAcls,
    /// DescribeConfigs.
    DescribeConfigs,
    /// AlterConfigs.
    AlterConfigs,
    /// DescribeLogDirs (v0 classic; v1 flexible). Local partition logs only.
    DescribeLogDirs,
    /// SaslAuthenticate.
    SaslAuthenticate,
    /// CreatePartitions.
    CreatePartitions,
    /// DeleteGroups.
    DeleteGroups,
    /// ElectLeaders (classic v0; flexible v1).
    ElectLeaders,
    /// IncrementalAlterConfigs.
    IncrementalAlterConfigs,
    /// AlterPartitionReassignments (always flexible; v0 only).
    AlterPartitionReassignments,
    /// ListPartitionReassignments (always flexible; v0 only).
    ListPartitionReassignments,
    /// OffsetDelete.
    OffsetDelete,
    /// DescribeUserScramCredentials (always flexible; v0 only).
    DescribeUserScramCredentials,
    /// AlterUserScramCredentials (always flexible; v0 only).
    AlterUserScramCredentials,
    /// UpdateFeatures (always flexible; v0–1). Rejects every feature.
    UpdateFeatures,
    /// DescribeCluster (always flexible).
    DescribeCluster,
    /// DescribeProducers (always flexible).
    DescribeProducers,
    /// DescribeTransactions (always flexible).
    DescribeTransactions,
    /// ListTransactions (always flexible).
    ListTransactions,
    /// DescribeTopicPartitions (always flexible; v0 only).
    DescribeTopicPartitions,
}

impl ApiKey {
    /// The number of the API on the wire.
    pub open spec fn number(self) -> i16 {
        match self {
            ApiKey::Produce => 0i16,
            ApiKey::Fetch => 1,
            ApiKey::ListOffsets => 2,
            ApiKey::Metadata => 3,
            ApiKey::OffsetCommit => 8,
            ApiKey::OffsetFetch => 9,
            ApiKey::FindCoordinator => 10,
            ApiKey::JoinGroup => 11,
            ApiKey::Heartbeat => 12,
            ApiKey::LeaveGroup => 13,
            ApiKey::SyncGroup => 14,
            ApiKey::DescribeGroups => 15,
            ApiKey::ListGroups => 16,
            ApiKey::SaslHandshake => 17,
            ApiKey::ApiVersions => 18,
            ApiKey::CreateTopics => 19,
            ApiKey::DeleteTopics => 20,
            ApiKey::DeleteRecords => 21,
            ApiKey::InitProducerId => 22,
            ApiKey::OffsetForLeaderEpoch => 23,
            ApiKey::AddPartitionsToTxn => 24,
            ApiKey::AddOffsetsToTxn => 25,
            ApiKey::EndTxn => 26,
            ApiKey::TxnOffsetCommit => 28,
            ApiKey::DescribeAcls => 29,
            ApiKey::CreateAcls => 30,
            ApiKey::DeleteAcls => 31,
            ApiKey::DescribeConfigs => 32,
            ApiKey::AlterConfigs => 33,
            ApiKey::DescribeLogDirs => 35,
            ApiKey::SaslAuthenticate => 36,
            ApiKey::CreatePartitions => 37,
            ApiKey::DeleteGroups => 42,
            ApiKey::ElectLeaders => 43,
            ApiKey::IncrementalAlterConfigs => 44,
            ApiKey::AlterPartitionReassignments => 45,
            ApiKey::ListPartitionReassignments => 46,
            ApiKey::OffsetDelete => 47,
            ApiKey::DescribeUserScramCredentials => 50,
            ApiKey::AlterUserScramCredentials => 51,
            ApiKey::UpdateFeatures => 57,
            ApiKey::DescribeCluster => 60,
            ApiKey::DescribeProducers => 61,
            ApiKey::DescribeTransactions => 65,
            ApiKey::ListTransactions => 66,
            ApiKey::DescribeTopicPartitions => 75,
        }
    }

    /// The number of the API on the wire.
    pub fn as_i16(self) -> (n: i16)
        ensures
            n == self.number(),
    {
        match self {
            ApiKey::Produce => 0,
            ApiKey::Fetch => 1,
            ApiKey::ListOffsets => 2,
            ApiKey::Metadata => 3,
            ApiKey::OffsetCommit => 8,
            ApiKey::OffsetFetch => 9,
            ApiKey::FindCoordinator => 10,
            ApiKey::JoinGroup => 11,
            ApiKey::Heartbeat => 12,
            ApiKey::LeaveGroup => 13,
            ApiKey::SyncGroup => 14,
            ApiKey::DescribeGroups => 15,
            ApiKey::ListGroups => 16,
            ApiKey::SaslHandshake => 17,
            ApiKey::ApiVersions => 18,
            ApiKey::CreateTopics => 19,
            ApiKey::DeleteTopics => 20,
            ApiKey::DeleteRecords => 21,
            ApiKey::InitProducerId => 22,
            ApiKey::OffsetForLeaderEpoch => 23,
            ApiKey::AddPartitionsToTxn => 24,
            ApiKey::AddOffsetsToTxn => 25,
            ApiKey::EndTxn => 26,
            ApiKey::TxnOffsetCommit => 28,
            ApiKey::DescribeAcls => 29,
            ApiKey::CreateAcls => 30,
            ApiKey::DeleteAcls => 31,
            ApiKey::DescribeConfigs => 32,
            ApiKey::AlterConfigs => 33,
            ApiKey::DescribeLogDirs => 35,
            ApiKey::SaslAuthenticate => 36,
            ApiKey::CreatePartitions => 37,
            ApiKey::DeleteGroups => 42,
            ApiKey::ElectLeaders => 43,
            ApiKey::IncrementalAlterConfigs => 44,
            ApiKey::AlterPartitionReassignments => 45,
            ApiKey::ListPartitionReassignments => 46,
            ApiKey::OffsetDelete => 47,
            ApiKey::DescribeUserScramCredentials => 50,
            ApiKey::AlterUserScramCredentials => 51,
            ApiKey::UpdateFeatures => 57,
            ApiKey::DescribeCluster => 60,
            ApiKey::DescribeProducers => 61,
            ApiKey::DescribeTransactions => 65,
            ApiKey::ListTransactions => 66,
            ApiKey::DescribeTopicPartitions => 75,
        }
    }

    /// The API with the number `v`, if it is served.
    pub fn from_i16(v: i16) -> (k: Option<ApiKey>)
        ensures
            match k {
                Some(a) => a.number() == v,
                None => forall|a: ApiKey| a.number() != v,
            },
    {
        match v {
            0 => Some(ApiKey::Produce),
            1 => Some(ApiKey::Fetch),
            2 => Some(ApiKey::ListOffsets),
            3 => Some(ApiKey::Metadata),
            8 => Some(ApiKey::OffsetCommit),
            9 => Some(ApiKey::OffsetFetch),
            10 => Some(ApiKey::FindCoordinator),
            11 => Some(ApiKey::JoinGroup),
            12 => Some(ApiKey::Heartbeat),
            13 => Some(ApiKey::LeaveGroup),
            14 => Some(ApiKey::SyncGroup),
            15 => Some(ApiKey::DescribeGroups),
            16 => Some(ApiKey::ListGroups),
            17 => Some(ApiKey::SaslHandshake),
            18 => Some(ApiKey::ApiVersions),
            19 => Some(ApiKey::CreateTopics),
            20 => Some(ApiKey::DeleteTopics),
            21 => Some(ApiKey::DeleteRecords),
            22 => Some(ApiKey::InitProducerId),
            23 => Some(ApiKey::OffsetForLeaderEpoch),
            24 => Some(ApiKey::AddPartitionsToTxn),
            25 => Some(ApiKey::AddOffsetsToTxn),
            26 => Some(ApiKey::EndTxn),
            28 => Some(ApiKey::TxnOffsetCommit),
            29 => Some(ApiKey::DescribeAcls),
            30 => Some(ApiKey::CreateAcls),
            31 => Some(ApiKey::DeleteAcls),
            32 => Some(ApiKey::DescribeConfigs),
            33 => Some(ApiKey::AlterConfigs),
            35 => Some(ApiKey::DescribeLogDirs),
            36 => Some(ApiKey::SaslAuthenticate),
            37 => Some(ApiKey::CreatePartitions),
            42 => Some(ApiKey::DeleteGroups),
            43 => Some(ApiKey::ElectLeaders),
            44 => Some(ApiKey::IncrementalAlterConfigs),
            45 => Some(ApiKey::AlterPartitionReassignments),
            46 => Some(ApiKey::ListPartitionReassignments),
            47 => Some(ApiKey::OffsetDelete),
            50 => Some(ApiKey::DescribeUserScramCredentials),
            51 => Some(ApiKey::AlterUserScramCredentials),
            57 => Some(ApiKey::UpdateFeatures),
            60 => Some(ApiKey::DescribeCluster),
            61 => Some(ApiKey::DescribeProducers),
            65 => Some(ApiKey::DescribeTransactions),
            66 => Some(ApiKey::ListTransactions),
            75 => Some(ApiKey::DescribeTopicPartitions),
            _ => None,
        }
    }

    /// The last version of the API that is served; the first one is 0.
    pub open spec fn last_version(self) -> i16 {
        match self {
            ApiKey::Produce => 13i16,
            ApiKey::Fetch => 18,
            ApiKey::ListOffsets => 11,
            ApiKey::Metadata => 13,
            ApiKey::OffsetCommit => 10,
            ApiKey::OffsetFetch => 10,
            ApiKey::FindCoordinator => 6,
            ApiKey::JoinGroup => 9,
            ApiKey::Heartbeat => 4,
            ApiKey::LeaveGroup => 5,
            ApiKey::SyncGroup => 5,
            ApiKey::DescribeGroups => 6,
            ApiKey::ListGroups => 5,
            ApiKey::SaslHandshake => 1,
            ApiKey::ApiVersions => 5,
            ApiKey::CreateTopics => 7,
            ApiKey::DeleteTopics => 6,
            ApiKey::DeleteRecords => 2,
            ApiKey::InitProducerId => 6,
            ApiKey::OffsetForLeaderEpoch => 4,
            ApiKey::AddPartitionsToTxn => 5,
            ApiKey::AddOffsetsToTxn => 4,
            ApiKey::EndTxn => 5,
            ApiKey::TxnOffsetCommit => 6,
            ApiKey::DescribeAcls => 3,
            ApiKey::CreateAcls => 3,
            ApiKey::DeleteAcls => 3,
            ApiKey::DescribeConfigs => 4,
            ApiKey::AlterConfigs => 2,
            ApiKey::DescribeLogDirs => 1,
            ApiKey::SaslAuthenticate => 2,
            ApiKey::CreatePartitions => 3,
            ApiKey::DeleteGroups => 3,
            ApiKey::ElectLeaders => 1,
            ApiKey::IncrementalAlterConfigs => 1,
            ApiKey::AlterPartitionReassignments => 0,
            ApiKey::ListPartitionReassignments => 0,
            ApiKey::OffsetDelete => 0,
            ApiKey::DescribeUserScramCredentials => 0,
            ApiKey::AlterUserScramCredentials => 0,
            ApiKey::UpdateFeatures => 1,
            ApiKey::DescribeCluster => 2,
            ApiKey::DescribeProducers => 0,
            ApiKey::DescribeTransactions => 0,
            ApiKey::ListTransactions => 2,
            ApiKey::DescribeTopicPartitions => 0,
        }
    }

    /// Whether a version of the API is flexible: the response header has a tag buffer.
    /// ApiVersions has the plain response header in every version.
    pub open spec fn flexible(self, version: i16) -> bool {
        match self {
            ApiKey::Produce => version >= 9,
            ApiKey::Fetch => version >= 12,
            ApiKey::ListOffsets => version >= 6,
            ApiKey::Metadata => version >= 9,
            ApiKey::OffsetCommit => version >= 8,
            ApiKey::OffsetFetch => version >= 6,
            ApiKey::FindCoordinator => version >= 3,
            ApiKey::JoinGroup => version >= 6,
            ApiKey::Heartbeat => version >= 4,
            ApiKey::LeaveGroup => version >= 4,
            ApiKey::SyncGroup => version >= 4,
            ApiKey::DescribeGroups => version >= 5,
            ApiKey::ListGroups => version >= 3,
            ApiKey::SaslHandshake => false,
            ApiKey::ApiVersions => false,
            ApiKey::CreateTopics => version >= 5,
            ApiKey::DeleteTopics => version >= 4,
            ApiKey::DeleteRecords => version >= 2,
            ApiKey::InitProducerId => version >= 2,
            ApiKey::OffsetForLeaderEpoch => version >= 4,
            ApiKey::AddPartitionsToTxn => version >= 3,
            ApiKey::AddOffsetsToTxn => version >= 3,
            ApiKey::EndTxn => version >= 3,
            ApiKey::TxnOffsetCommit => version >= 3,
            ApiKey::DescribeAcls => version >= 2,
            ApiKey::CreateAcls => version >= 2,
            ApiKey::DeleteAcls => version >= 2,
            ApiKey::DescribeConfigs => version >= 4,
            ApiKey::AlterConfigs => version >= 2,
            ApiKey::DescribeLogDirs => version >= 1,
            ApiKey::SaslAuthenticate => version >= 2,
            ApiKey::CreatePartitions => version >= 2,
            ApiKey::DeleteGroups => version >= 2,
            ApiKey::ElectLeaders => version >= 1,
            ApiKey::IncrementalAlterConfigs => version >= 1,
            ApiKey::AlterPartitionReassignments => true,
            ApiKey::ListPartitionReassignments => true,
            ApiKey::OffsetDelete => false,
            ApiKey::DescribeUserScramCredentials => true,
            ApiKey::AlterUserScramCredentials => true,
            ApiKey::UpdateFeatures => true,
            ApiKey::DescribeCluster => true,
            ApiKey::DescribeProducers => true,
            ApiKey::DescribeTransactions => true,
            ApiKey::ListTransactions => true,
            ApiKey::DescribeTopicPartitions => true,
        }
    }

    /// Whether the response header has a tag buffer.
    pub fn is_flexible(self, version: i16) -> (b: bool)
        ensures
            b == self.flexible(version),
    {
        match self {
            ApiKey::Produce => version >= 9,
            ApiKey::Fetch => version >= 12,
            ApiKey::ListOffsets => version >= 6,
            ApiKey::Metadata => version >= 9,
            ApiKey::OffsetCommit => version >= 8,
            ApiKey::OffsetFetch => version >= 6,
            ApiKey::FindCoordinator => version >= 3,
            ApiKey::JoinGroup => version >= 6,
            ApiKey::Heartbeat => version >= 4,
            ApiKey::LeaveGroup => version >= 4,
            ApiKey::SyncGroup => version >= 4,
            ApiKey::DescribeGroups => version >= 5,
            ApiKey::ListGroups => version >= 3,
            ApiKey::SaslHandshake => false,
            ApiKey::ApiVersions => false,
            ApiKey::CreateTopics => version >= 5,
            ApiKey::DeleteTopics => version >= 4,
            ApiKey::DeleteRecords => version >= 2,
            ApiKey::InitProducerId => version >= 2,
            ApiKey::OffsetForLeaderEpoch => version >= 4,
            ApiKey::AddPartitionsToTxn => version >= 3,
            ApiKey::AddOffsetsToTxn => version >= 3,
            ApiKey::EndTxn => version >= 3,
            ApiKey::TxnOffsetCommit => version >= 3,
            ApiKey::DescribeAcls => version >= 2,
            ApiKey::CreateAcls => version >= 2,
            ApiKey::DeleteAcls => version >= 2,
            ApiKey::DescribeConfigs => version >= 4,
            ApiKey::AlterConfigs => version >= 2,
            ApiKey::DescribeLogDirs => version >= 1,
            ApiKey::SaslAuthenticate => version >= 2,
            ApiKey::CreatePartitions => version >= 2,
            ApiKey::DeleteGroups => version >= 2,
            ApiKey::ElectLeaders => version >= 1,
            ApiKey::IncrementalAlterConfigs => version >= 1,
            ApiKey::AlterPartitionReassignments => true,
            ApiKey::ListPartitionReassignments => true,
            ApiKey::OffsetDelete => false,
            ApiKey::DescribeUserScramCredentials => true,
            ApiKey::AlterUserScramCredentials => true,
            ApiKey::UpdateFeatures => true,
            ApiKey::DescribeCluster => true,
            ApiKey::DescribeProducers => true,
            ApiKey::DescribeTransactions => true,
            ApiKey::ListTransactions => true,
            ApiKey::DescribeTopicPartitions => true,
        }
    }

    /// Whether the request header of a version of the API ends in a tag buffer.
    pub open spec fn tagged_request(self, version: i16) -> bool {
        self.flexible(version) || (self == ApiKey::ApiVersions && version >= 3)
    }

    /// Whether a version of the API is served.
    pub open spec fn serves(self, version: i16) -> bool {
        0 <= version <= self.last_version()
    }

    /// Whether a version of the API is served.
    pub fn is_served(self, version: i16) -> (b: bool)
        ensures
            b == self.serves(version),
    {
        let last: i16 = match self {
            ApiKey::Produce => 13,
            ApiKey::Fetch => 18,
            ApiKey::ListOffsets => 11,
            ApiKey::Metadata => 13,
            ApiKey::OffsetCommit => 10,
            ApiKey::OffsetFetch => 10,
            ApiKey::FindCoordinator => 6,
            ApiKey::JoinGroup => 9,
            ApiKey::Heartbeat => 4,
            ApiKey::LeaveGroup => 5,
            ApiKey::SyncGroup => 5,
            ApiKey::DescribeGroups => 6,
            ApiKey::ListGroups => 5,
            ApiKey::SaslHandshake => 1,
            ApiKey::ApiVersions => 5,
            ApiKey::CreateTopics => 7,
            ApiKey::DeleteTopics => 6,
            ApiKey::DeleteRecords => 2,
            ApiKey::InitProducerId => 6,
            ApiKey::OffsetForLeaderEpoch => 4,
            ApiKey::AddPartitionsToTxn => 5,
            ApiKey::AddOffsetsToTxn => 4,
            ApiKey::EndTxn => 5,
            ApiKey::TxnOffsetCommit => 6,
            ApiKey::DescribeAcls => 3,
            ApiKey::CreateAcls => 3,
            ApiKey::DeleteAcls => 3,
            ApiKey::DescribeConfigs => 4,
            ApiKey::AlterConfigs => 2,
            ApiKey::DescribeLogDirs => 1,
            ApiKey::SaslAuthenticate => 2,
            ApiKey::CreatePartitions => 3,
            ApiKey::DeleteGroups => 3,
            ApiKey::ElectLeaders => 1,
            ApiKey::IncrementalAlterConfigs => 1,
            ApiKey::AlterPartitionReassignments => 0,
            ApiKey::ListPartitionReassignments => 0,
            ApiKey::OffsetDelete => 0,
            ApiKey::DescribeUserScramCredentials => 0,
            ApiKey::AlterUserScramCredentials => 0,
            ApiKey::UpdateFeatures => 1,
            ApiKey::DescribeCluster => 2,
            ApiKey::DescribeProducers => 0,
            ApiKey::DescribeTransactions => 0,
            ApiKey::ListTransactions => 2,
            ApiKey::DescribeTopicPartitions => 0,
        };
        0 <= version && version <= last
    }
}

/// Two APIs with the same number are the same API.
pub proof fn law_keys_distinct(a: ApiKey, b: ApiKey)
    ensures
        a.number() == b.number() ==> a == b,
{
}

/// The APIs in the order in which they are advertised, each with its first and last
/// version.
pub open spec fn supported() -> Seq<(ApiKey, i16, i16)> {
    seq![
        (ApiKey::Produce, 0i16, 13i16),
        (ApiKey::Fetch, 0i16, 18i16),
        (ApiKey::ListOffsets, 0i16, 11i16),
        (ApiKey::Metadata, 0i16, 13i16),
        (ApiKey::OffsetCommit, 0i16, 10i16),
        (ApiKey::OffsetFetch, 0i16, 10i16),
        (ApiKey::FindCoordinator, 0i16, 6i16),
        (ApiKey::JoinGroup, 0i16, 9i16),
        (ApiKey::Heartbeat, 0i16, 4i16),
        (ApiKey::LeaveGroup, 0i16, 5i16),
        (ApiKey::SyncGroup, 0i16, 5i16),
        (ApiKey::DescribeGroups, 0i16, 6i16),
        (ApiKey::ListGroups, 0i16, 5i16),
        (ApiKey::SaslHandshake, 0i16, 1i16),
        (ApiKey::ApiVersions, 0i16, 5i16),
        (ApiKey::CreateTopics, 0i16, 7i16),
        (ApiKey::DeleteTopics, 0i16, 6i16),
        (ApiKey::DeleteRecords, 0i16, 2i16),
        (ApiKey::InitProducerId, 0i16, 6i16),
        (ApiKey::OffsetForLeaderEpoch, 0i16, 4i16),
        (ApiKey::AddPartitionsToTxn, 0i16, 5i16),
        (ApiKey::AddOffsetsToTxn, 0i16, 4i16),
        (ApiKey::EndTxn, 0i16, 5i16),
        (ApiKey::TxnOffsetCommit, 0i16, 6i16),
        (ApiKey::DescribeAcls, 0i16, 3i16),
        (ApiKey::CreateAcls, 0i16, 3i16),
        (ApiKey::DeleteAcls, 0i16, 3i16),
        (ApiKey::DescribeConfigs, 0i16, 4i16),
        (ApiKey::AlterConfigs, 0i16, 2i16),
        (ApiKey::DescribeLogDirs, 0i16, 1i16),
        (ApiKey::SaslAuthenticate, 0i16, 2i16),
        (ApiKey::CreatePartitions, 0i16, 3i16),
        (ApiKey::DeleteGroups, 0i16, 3i16),
        (ApiKey::ElectLeaders, 0i16, 1i16),
        (ApiKey::IncrementalAlterConfigs, 0i16, 1i16),
        (ApiKey::AlterPartitionReassignments, 0i16, 0i16),
        (ApiKey::ListPartitionReassignments, 0i16, 0i16),
        (ApiKey::OffsetDelete, 0i16, 0i16),
        (ApiKey::DescribeUserScramCredentials, 0i16, 0i16),
        (ApiKey::AlterUserScramCredentials, 0i16, 0i16),
        (ApiKey::UpdateFeatures, 0i16, 1i16),
        (ApiKey::DescribeCluster, 0i16, 2i16),
        (ApiKey::DescribeProducers, 0i16, 0i16),
        (ApiKey::DescribeTransactions, 0i16, 0i16),
        (ApiKey::ListTransactions, 0i16, 2i16),
        (ApiKey::DescribeTopicPartitions, 0i16, 0i16),
    ]
}

/// Supported version ranges advertised in ApiVersions.
pub fn supported_apis() -> (v: Vec<(ApiKey, i16, i16)>)
    ensures
        v@ == supported(),
{
    vec![
        (ApiKey::Produce, 0, 13),
        (ApiKey::Fetch, 0, 18),
        (ApiKey::ListOffsets, 0, 11),
        (ApiKey::Metadata, 0, 13),
        (ApiKey::OffsetCommit, 0, 10),
        (ApiKey::OffsetFetch, 0, 10),
        (ApiKey::FindCoordinator, 0, 6),
        (ApiKey::JoinGroup, 0, 9),
        (ApiKey::Heartbeat, 0, 4),
        (ApiKey::LeaveGroup, 0, 5),
        (ApiKey::SyncGroup, 0, 5),
        (ApiKey::DescribeGroups, 0, 6),
        (ApiKey::ListGroups, 0, 5),
        (ApiKey::SaslHandshake, 0, 1),
        (ApiKey::ApiVersions, 0, 5),
        (ApiKey::CreateTopics, 0, 7),
        (ApiKey::DeleteTopics, 0, 6),
        (ApiKey::DeleteRecords, 0, 2),
        (ApiKey::InitProducerId, 0, 6),
        (ApiKey::OffsetForLeaderEpoch, 0, 4),
        (ApiKey::AddPartitionsToTxn, 0, 5),
        (ApiKey::AddOffsetsToTxn, 0, 4),
        (ApiKey::EndTxn, 0, 5),
        (ApiKey::TxnOffsetCommit, 0, 6),
        (ApiKey::DescribeAcls, 0, 3),
        (ApiKey::CreateAcls, 0, 3),
        (ApiKey::DeleteAcls, 0, 3),
        (ApiKey::DescribeConfigs, 0, 4),
        (ApiKey::AlterConfigs, 0, 2),
        (ApiKey::DescribeLogDirs, 0, 1),
        (ApiKey::SaslAuthenticate, 0, 2),
        (ApiKey::CreatePartitions, 0, 3),
        (ApiKey::DeleteGroups, 0, 3),
        (ApiKey::ElectLeaders, 0, 1),
        (ApiKey::IncrementalAlterConfigs, 0, 1),
        (ApiKey::AlterPartitionReassignments, 0, 0),
        (ApiKey::ListPartitionReassignments, 0, 0),
        (ApiKey::OffsetDelete, 0, 0),
        (ApiKey::DescribeUserScramCredentials, 0, 0),
        (ApiKey::AlterUserScramCredentials, 0, 0),
        (ApiKey::UpdateFeatures, 0, 1),
        (ApiKey::DescribeCluster, 0, 2),
        (ApiKey::DescribeProducers, 0, 0),
        (ApiKey::DescribeTransactions, 0, 0),
        (ApiKey::ListTransactions, 0, 2),
        (ApiKey::DescribeTopicPartitions, 0, 0),
    ]
}

/// Where the API `a` stands among the advertised ones.
pub open spec fn place(a: ApiKey) -> int {
    match a {
        ApiKey::Produce => 0int,
        ApiKey::Fetch => 1,
        ApiKey::ListOffsets => 2,
        ApiKey::Metadata => 3,
        ApiKey::OffsetCommit => 4,
        ApiKey::OffsetFetch => 5,
        ApiKey::FindCoordinator => 6,
        ApiKey::JoinGroup => 7,
        ApiKey::Heartbeat => 8,
        ApiKey::LeaveGroup => 9,
        ApiKey::SyncGroup => 10,
        ApiKey::DescribeGroups => 11,
        ApiKey::ListGroups => 12,
        ApiKey::SaslHandshake => 13,
        ApiKey::ApiVersions => 14,
        ApiKey::CreateTopics => 15,
        ApiKey::DeleteTopics => 16,
        ApiKey::DeleteRecords => 17,
        ApiKey::InitProducerId => 18,
        ApiKey::OffsetForLeaderEpoch => 19,
        ApiKey::AddPartitionsToTxn => 20,
        ApiKey::AddOffsetsToTxn => 21,
        ApiKey::EndTxn => 22,
        ApiKey::TxnOffsetCommit => 23,
        ApiKey::DescribeAcls => 24,
        ApiKey::CreateAcls => 25,
        ApiKey::DeleteAcls => 26,
        ApiKey::DescribeConfigs => 27,
        ApiKey::AlterConfigs => 28,
        ApiKey::DescribeLogDirs => 29,
        ApiKey::SaslAuthenticate => 30,
        ApiKey::CreatePartitions => 31,
        ApiKey::DeleteGroups => 32,
        ApiKey::ElectLeaders => 33,
        ApiKey::IncrementalAlterConfigs => 34,
        ApiKey::AlterPartitionReassignments => 35,
        ApiKey::ListPartitionReassignments => 36,
        ApiKey::OffsetDelete => 37,
        ApiKey::DescribeUserScramCredentials => 38,
        ApiKey::AlterUserScramCredentials => 39,
        ApiKey::UpdateFeatures => 40,
        ApiKey::DescribeCluster => 41,
        ApiKey::DescribeProducers => 42,
        ApiKey::DescribeTransactions => 43,
        ApiKey::ListTransactions => 44,
        ApiKey::DescribeTopicPartitions => 45,
    }
}

/// What is advertised is what is served: every API once, with the versions that are
/// answered.
pub proof fn law_advertised(a: ApiKey)
    ensures
        supported().len() == 46,
        0 <= place(a) < supported().len(),
        supported()[place(a)] == (a, 0i16, a.last_version()),
        forall|i: int|
            0 <= i < supported().len() && #[trigger] supported()[i].0 == a ==> i == place(a),
{
    assert forall|i: int| 0 <= i < supported().len() implies place(
        #[trigger] supported()[i].0,
    ) == i by {
    }
}

} // verus!
