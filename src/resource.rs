//! Cluster resources as the tree builder reads them.

use vstd::prelude::*;

verus! {

/// One resource object: its name, its creation time in seconds since the
/// epoch, and its serialized form, which becomes the content of its file.
pub struct Resource {
    pub name: Option<String>,
    pub created: Option<i64>,
    pub manifest: Vec<u8>,
}

pub struct ResourceView {
    pub name: Option<Seq<char>>,
    pub created: Option<i64>,
    pub manifest: Seq<u8>,
}

impl View for Resource {
    type V = ResourceView;

    open spec fn view(&self) -> ResourceView {
        ResourceView {
            name: match self.name {
                Some(n) => Some(n@),
                None => None,
            },
            created: self.created,
            manifest: self.manifest@,
        }
    }
}

/// A failed request to the cluster.
pub struct UpstreamError {
    pub message: String,
}

/// A namespace with the outcome of listing its config maps.
pub struct NamespaceListing {
    pub namespace: Resource,
    pub config_maps: Result<Vec<Resource>, UpstreamError>,
}

pub struct ListingView {
    pub namespace: ResourceView,
    /// `None` where listing the config maps failed.
    pub config_maps: Option<Seq<ResourceView>>,
}

pub open spec fn resources_view(v: Seq<Resource>) -> Seq<ResourceView> {
    v.map_values(|r: Resource| r@)
}

impl View for NamespaceListing {
    type V = ListingView;

    open spec fn view(&self) -> ListingView {
        ListingView {
            namespace: self.namespace@,
            config_maps: match self.config_maps {
                Ok(v) => Some(resources_view(v@)),
                Err(_) => None,
            },
        }
    }
}

pub open spec fn listings_view(v: Seq<NamespaceListing>) -> Seq<ListingView> {
    v.map_values(|l: NamespaceListing| l@)
}

} // verus!
