//! Error codes, APIs and what is advertised.

use bytes::{Buf, BytesMut};
use volant_kafka::api::{
    map_group_error, map_idempotent_error, supported_apis, ApiKey, KafkaErrorCode,
};
use volant_kafka::metadata::encode_api_versions;

fn advertises(key: ApiKey, min: i16, max: i16) -> bool {
    supported_apis().iter().any(|(k, a, b)| *k == key && *a == min && *b == max)
}

#[test]
fn supported_apis_includes_describe_log_dirs_35() {
    assert!(supported_apis().len() >= 46);
    assert!(advertises(ApiKey::DescribeLogDirs, 0, 1));
    assert_eq!(ApiKey::from_i16(35), Some(ApiKey::DescribeLogDirs));
}

#[test]
fn supported_apis_includes_update_features_57() {
    assert!(supported_apis().len() >= 46);
    assert!(advertises(ApiKey::UpdateFeatures, 0, 1));
    assert_eq!(ApiKey::from_i16(57), Some(ApiKey::UpdateFeatures));
    assert_eq!(KafkaErrorCode::FeatureUpdateFailed.as_i16(), 92);
}

#[test]
fn supported_apis_includes_elect_leaders_43_and_describe_topic_partitions_75() {
    assert!(supported_apis().len() >= 46);
    assert!(advertises(ApiKey::ElectLeaders, 0, 1));
    assert!(advertises(ApiKey::SyncGroup, 0, 5));
    assert!(advertises(ApiKey::AlterPartitionReassignments, 0, 0));
    assert!(advertises(ApiKey::ListPartitionReassignments, 0, 0));
    assert!(advertises(ApiKey::DescribeUserScramCredentials, 0, 0));
    assert!(advertises(ApiKey::AlterUserScramCredentials, 0, 0));
    assert!(advertises(ApiKey::DescribeTopicPartitions, 0, 0));
    assert_eq!(ApiKey::from_i16(43), Some(ApiKey::ElectLeaders));
    assert_eq!(ApiKey::from_i16(45), Some(ApiKey::AlterPartitionReassignments));
    assert_eq!(ApiKey::from_i16(46), Some(ApiKey::ListPartitionReassignments));
    assert_eq!(ApiKey::from_i16(50), Some(ApiKey::DescribeUserScramCredentials));
    assert_eq!(ApiKey::from_i16(51), Some(ApiKey::AlterUserScramCredentials));
    assert_eq!(ApiKey::from_i16(57), Some(ApiKey::UpdateFeatures));
    assert_eq!(ApiKey::from_i16(75), Some(ApiKey::DescribeTopicPartitions));
}

#[test]
fn advertised_versions_are_served_and_no_others() {
    for (k, min, max) in supported_apis() {
        assert_eq!(ApiKey::from_i16(k.as_i16()), Some(k));
        assert!(k.is_served(min) && k.is_served(max));
        assert!(!k.is_served(max + 1) && !k.is_served(-1));
    }
    assert_eq!(ApiKey::from_i16(99), None);
}

#[test]
fn error_codes_have_their_numbers() {
    assert_eq!(KafkaErrorCode::NoError.as_i16(), 0);
    assert_eq!(KafkaErrorCode::Unknown.as_i16(), -1);
    assert_eq!(KafkaErrorCode::UnknownTopicOrPartition.as_i16(), 3);
    assert_eq!(KafkaErrorCode::GroupAuthorizationFailed.as_i16(), 30);
    assert_eq!(KafkaErrorCode::InvalidRequest.as_i16(), 42);
    assert_eq!(KafkaErrorCode::UnstableOffsetCommit.as_i16(), 81);
    assert_eq!(KafkaErrorCode::UnknownTopicId.as_i16(), 100);
}

#[test]
fn broker_errors_are_mapped() {
    assert_eq!(map_group_error(0), 0);
    assert_eq!(map_group_error(60000), KafkaErrorCode::Unknown.as_i16());
    assert_eq!(map_idempotent_error(60000), KafkaErrorCode::Unknown.as_i16());
}

#[test]
fn api_versions_lists_every_api() {
    let mut out = BytesMut::new();
    encode_api_versions(&mut out, 0);
    let mut src = out.freeze();
    assert_eq!(src.get_i16(), 0);
    assert_eq!(src.get_i32(), 46);
    assert_eq!(src.get_i16(), ApiKey::Produce.as_i16());
    assert_eq!(src.get_i16(), 0);
    assert_eq!(src.get_i16(), 13);
    assert_eq!(src.remaining(), 45 * 6);
}
