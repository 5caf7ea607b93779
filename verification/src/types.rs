//! Records exchanged with the remote metadata service, and their models.

use vstd::prelude::*;

verus! {

/// The model of an optional string.
pub open spec fn opt_text(o: Option<String>) -> Option<Seq<char>> {
    match o {
        Some(s) => Some(s@),
        None => None,
    }
}

/// One package as the remote service reports it.
#[derive(Debug, Clone)]
pub struct AurPackage {
    pub name: String,
    pub version: String,
    pub description: Option<String>,
    pub url: Option<String>,
    pub num_votes: Option<u32>,
}

/// The model of an [`AurPackage`].
pub struct AurPackageModel {
    pub name: Seq<char>,
    pub version: Seq<char>,
    pub description: Option<Seq<char>>,
    pub url: Option<Seq<char>>,
    pub num_votes: Option<u32>,
}

impl View for AurPackage {
    type V = AurPackageModel;

    open spec fn view(&self) -> AurPackageModel {
        AurPackageModel {
            name: self.name@,
            version: self.version@,
            description: opt_text(self.description),
            url: opt_text(self.url),
            num_votes: self.num_votes,
        }
    }
}

impl DeepView for AurPackage {
    type V = AurPackageModel;

    open spec fn deep_view(&self) -> AurPackageModel {
        self@
    }
}

/// The envelope of a reply of the remote service.
#[derive(Debug)]
pub struct AurResponse {
    pub version: u8,
    pub resp_type: String,
    pub resultcount: u32,
    pub results: Option<Vec<AurPackage>>,
}

/// The model of an [`AurResponse`].
pub struct AurResponseModel {
    pub version: u8,
    pub resp_type: Seq<char>,
    pub resultcount: u32,
    pub results: Option<Seq<AurPackageModel>>,
}

impl View for AurResponse {
    type V = AurResponseModel;

    open spec fn view(&self) -> AurResponseModel {
        AurResponseModel {
            version: self.version,
            resp_type: self.resp_type@,
            resultcount: self.resultcount,
            results: self.results.deep_view(),
        }
    }
}

impl DeepView for AurResponse {
    type V = AurResponseModel;

    open spec fn deep_view(&self) -> AurResponseModel {
        self@
    }
}

impl AurResponse {
    /// The packages of the reply; none where the reply carries no list.
    pub fn into_packages(self) -> (r: Vec<AurPackage>)
        ensures
            r.deep_view() == match self@.results {
                Some(ps) => ps,
                None => Seq::empty(),
            },
    {
        match self.results {
            Some(ps) => ps,
            None => {
                let v: Vec<AurPackage> = Vec::new();
                assert(v.deep_view() =~= Seq::empty());
                v
            },
        }
    }
}

} // verus!
