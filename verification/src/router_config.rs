//! How the rules of a router read the requests they are matched against.
use vstd::prelude::*;

verus! {

/// The settings of a router that change how a request is read.
#[derive(Debug)]
pub struct RouterConfig {
    pub ignore_host_case: bool,
    pub ignore_header_case: bool,
    pub ignore_path_and_query_case: bool,
    pub ignore_marketing_query_params: bool,
    pub ignore_all_query_parameters: bool,
    pub ignore_query_param_order: bool,
    pub pass_marketing_query_params_to_target: bool,
    /// The names of the query parameters that marketing tools add.
    pub marketing_query_params: Vec<String>,
}

} // verus!
