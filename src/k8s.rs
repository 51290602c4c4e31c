//! Turning the cluster's namespace and config map objects into resources.

use vstd::prelude::*;
use vstd::utf8::encode_utf8;
use crate::resource::Resource;

verus! {

#[verifier::external_type_specification]
#[verifier::external_body]
pub struct ExNamespace(k8s_openapi::api::core::v1::Namespace);

#[verifier::external_type_specification]
#[verifier::external_body]
pub struct ExConfigMap(k8s_openapi::api::core::v1::ConfigMap);

#[verifier::external_type_specification]
#[verifier::external_body]
pub struct ExObjectMeta(k8s_openapi::apimachinery::pkg::apis::meta::v1::ObjectMeta);

#[verifier::external_type_specification]
#[verifier::external_body]
pub struct ExYamlError(serde_yaml::Error);

#[verifier::external_type_specification]
#[verifier::external_body]
pub struct ExTime(k8s_openapi::apimachinery::pkg::apis::meta::v1::Time);

/// The `metadata` field of a namespace object.
pub uninterp spec fn namespace_meta_of(ns: k8s_openapi::api::core::v1::Namespace) -> k8s_openapi::apimachinery::pkg::apis::meta::v1::ObjectMeta;

/// The `metadata` field of a config map object.
pub uninterp spec fn config_map_meta_of(cm: k8s_openapi::api::core::v1::ConfigMap) -> k8s_openapi::apimachinery::pkg::apis::meta::v1::ObjectMeta;

/// The `name` field of an object's metadata.
pub uninterp spec fn meta_name_of(meta: k8s_openapi::apimachinery::pkg::apis::meta::v1::ObjectMeta) -> Option<Seq<char>>;

/// The `creation_timestamp` field of an object's metadata.
pub uninterp spec fn meta_timestamp_of(meta: k8s_openapi::apimachinery::pkg::apis::meta::v1::ObjectMeta) -> Option<k8s_openapi::apimachinery::pkg::apis::meta::v1::Time>;

/// The whole seconds since the Unix epoch of a timestamp.
pub uninterp spec fn time_secs_of(t: k8s_openapi::apimachinery::pkg::apis::meta::v1::Time) -> i64;

/// The creation time of an object, in seconds since the epoch, if it has one.
pub open spec fn created_of(meta: k8s_openapi::apimachinery::pkg::apis::meta::v1::ObjectMeta) -> Option<i64> {
    match meta_timestamp_of(meta) {
        Some(t) => Some(time_secs_of(t)),
        None => None,
    }
}

/// Relies on the `metadata` field of k8s_openapi's `Namespace`.
#[verifier::external_body]
fn namespace_meta(ns: &k8s_openapi::api::core::v1::Namespace) -> (r: &k8s_openapi::apimachinery::pkg::apis::meta::v1::ObjectMeta)
    ensures
        *r == namespace_meta_of(*ns),
{
    &ns.metadata
}

/// Relies on the `metadata` field of k8s_openapi's `ConfigMap`.
#[verifier::external_body]
fn config_map_meta(cm: &k8s_openapi::api::core::v1::ConfigMap) -> (r: &k8s_openapi::apimachinery::pkg::apis::meta::v1::ObjectMeta)
    ensures
        *r == config_map_meta_of(*cm),
{
    &cm.metadata
}

/// Relies on the `name` field of k8s_openapi's `ObjectMeta`.
#[verifier::external_body]
fn meta_name(meta: &k8s_openapi::apimachinery::pkg::apis::meta::v1::ObjectMeta) -> (r: Option<String>)
    ensures
        match r {
            Some(n) => meta_name_of(*meta) == Some(n@),
            None => meta_name_of(*meta) is None,
        },
{
    meta.name.clone()
}

/// Relies on the `creation_timestamp` field of k8s_openapi's `ObjectMeta`.
#[verifier::external_body]
fn meta_timestamp(meta: &k8s_openapi::apimachinery::pkg::apis::meta::v1::ObjectMeta) -> (r: Option<&k8s_openapi::apimachinery::pkg::apis::meta::v1::Time>)
    ensures
        match r {
            Some(t) => meta_timestamp_of(*meta) == Some(*t),
            None => meta_timestamp_of(*meta) is None,
        },
{
    meta.creation_timestamp.as_ref()
}

/// Relies on chrono's `DateTime::timestamp`, applied to the instant that
/// k8s_openapi's `Time` holds: whole seconds since the Unix epoch.
#[verifier::external_body]
fn time_secs(t: &k8s_openapi::apimachinery::pkg::apis::meta::v1::Time) -> (r: i64)
    ensures
        r == time_secs_of(*t),
{
    t.0.timestamp()
}

/// The YAML text that serde_yaml gives for a namespace object, or `None`
/// where it reports an error.
pub uninterp spec fn namespace_yaml_of(ns: k8s_openapi::api::core::v1::Namespace) -> Option<Seq<char>>;

/// The YAML text that serde_yaml gives for a config map object, or `None`
/// where it reports an error.
pub uninterp spec fn config_map_yaml_of(cm: k8s_openapi::api::core::v1::ConfigMap) -> Option<Seq<char>>;

/// The bytes of a file that holds `yaml`: its UTF-8 encoding, or nothing
/// where the object could not be encoded.
pub open spec fn manifest_of(yaml: Option<Seq<char>>) -> Seq<u8> {
    match yaml {
        Some(s) => encode_utf8(s),
        None => Seq::empty(),
    }
}

/// Relies on serde_yaml::to_string: the YAML text of a namespace object,
/// which depends on the object alone.
#[verifier::external_body]
fn namespace_yaml(ns: &k8s_openapi::api::core::v1::Namespace) -> (r: Result<String, serde_yaml::Error>)
    ensures
        match r {
            Ok(s) => namespace_yaml_of(*ns) == Some(s@),
            Err(_) => namespace_yaml_of(*ns) is None,
        },
{
    serde_yaml::to_string(ns)
}

/// Relies on serde_yaml::to_string: the YAML text of a config map object,
/// which depends on the object alone.
#[verifier::external_body]
fn config_map_yaml(cm: &k8s_openapi::api::core::v1::ConfigMap) -> (r: Result<String, serde_yaml::Error>)
    ensures
        match r {
            Ok(s) => config_map_yaml_of(*cm) == Some(s@),
            Err(_) => config_map_yaml_of(*cm) is None,
        },
{
    serde_yaml::to_string(cm)
}

/// The bytes of an encoded object; an object that could not be encoded
/// becomes an empty file.
pub fn manifest_bytes(encoded: Result<String, serde_yaml::Error>) -> (r: Vec<u8>)
    ensures
        match encoded {
            Ok(s) => r@ == encode_utf8(s@),
            Err(_) => r@.len() == 0,
        },
{
    match encoded {
        Ok(s) => vstd::slice::slice_to_vec(s.as_str().as_bytes()),
        Err(_) => Vec::new(),
    }
}

/// The creation time of an object, in seconds since the epoch, if it has one.
fn created_secs(meta: &k8s_openapi::apimachinery::pkg::apis::meta::v1::ObjectMeta) -> (r: Option<i64>)
    ensures
        r == created_of(*meta),
{
    match meta_timestamp(meta) {
        Some(t) => Some(time_secs(t)),
        None => None,
    }
}

impl Resource {
    /// The resource for a namespace object; its manifest is the object's
    /// YAML, or empty where the object could not be encoded.
    pub fn from_namespace(ns: &k8s_openapi::api::core::v1::Namespace) -> (r: Resource)
        ensures
            r@.name == meta_name_of(namespace_meta_of(*ns)),
            r@.created == created_of(namespace_meta_of(*ns)),
            r@.manifest == manifest_of(namespace_yaml_of(*ns)),
    {
        let meta = namespace_meta(ns);
        let manifest = manifest_bytes(namespace_yaml(ns));
        proof {
            if manifest@.len() == 0 {
                assert(manifest@ =~= Seq::<u8>::empty());
            }
        }
        Resource { name: meta_name(meta), created: created_secs(meta), manifest }
    }

    /// The resource for a config map object; its manifest is the object's
    /// YAML, or empty where the object could not be encoded.
    pub fn from_config_map(cm: &k8s_openapi::api::core::v1::ConfigMap) -> (r: Resource)
        ensures
            r@.name == meta_name_of(config_map_meta_of(*cm)),
            r@.created == created_of(config_map_meta_of(*cm)),
            r@.manifest == manifest_of(config_map_yaml_of(*cm)),
    {
        let meta = config_map_meta(cm);
        let manifest = manifest_bytes(config_map_yaml(cm));
        proof {
            if manifest@.len() == 0 {
                assert(manifest@ =~= Seq::<u8>::empty());
            }
        }
        Resource { name: meta_name(meta), created: created_secs(meta), manifest }
    }
}

} // verus!
