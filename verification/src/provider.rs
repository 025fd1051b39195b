//! The data sources: which there are, and how what they deliver is read.
pub mod chelaile;
pub mod debug;
pub mod mygolbs;
pub mod reading;
pub mod registry;

use crate::text::copy;
use vstd::prelude::*;

verus! {

/// Why a data source did not deliver.
#[derive(Debug)]
pub enum ProviderError {
    Network(String),
    Parse(String),
    Server(String),
}

/// What a [`ProviderError`] holds.
#[verifier::ext_equal]
pub enum ProviderErrorModel {
    Network(Seq<char>),
    Parse(Seq<char>),
    Server(Seq<char>),
}

impl View for ProviderError {
    type V = ProviderErrorModel;

    open spec fn view(&self) -> ProviderErrorModel {
        match *self {
            ProviderError::Network(x) => ProviderErrorModel::Network(x@),
            ProviderError::Parse(x) => ProviderErrorModel::Parse(x@),
            ProviderError::Server(x) => ProviderErrorModel::Server(x@),
        }
    }
}

impl Clone for ProviderError {
    fn clone(&self) -> (r: Self)
        ensures
            r@ == self@,
    {
        match self {
            ProviderError::Network(x) => ProviderError::Network(x.clone()),
            ProviderError::Parse(x) => ProviderError::Parse(x.clone()),
            ProviderError::Server(x) => ProviderError::Server(x.clone()),
        }
    }
}

/// The message for an error.
pub open spec fn provider_message(e: ProviderErrorModel) -> Seq<char> {
    match e {
        ProviderErrorModel::Network(what) => "网络错误: "@ + what,
        ProviderErrorModel::Parse(what) => "解析错误: "@ + what,
        ProviderErrorModel::Server(what) => "服务端错误: "@ + what,
    }
}

impl ProviderError {
    /// The message for the error.
    pub fn message(&self) -> (r: String)
        ensures
            r@ == provider_message(self@),
    {
        match self {
            ProviderError::Network(what) => {
                let mut r = copy("网络错误: ");
                r.append(what.as_str());
                r
            },
            ProviderError::Parse(what) => {
                let mut r = copy("解析错误: ");
                r.append(what.as_str());
                r
            },
            ProviderError::Server(what) => {
                let mut r = copy("服务端错误: ");
                r.append(what.as_str());
                r
            },
        }
    }
}

} // verus!
