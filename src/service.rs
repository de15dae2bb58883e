//! The operations of the parser service over a registry of grammar adapters.
use vstd::prelude::*;
use crate::batch::{expected_responses, req_ids, resp_ids, resp_views, run_batch, trees_wf};
use crate::syntax::{node_view, node_wf};
use crate::engine::{parse_one, request_response, response_view, ParseRequest, ParseResponse};
use crate::registry::{
    adapter_view, index_of_name, info_view, listing, standard_adapters, standard_names, GrammarAdapter,
    LanguageInfo, Registry,
};
use crate::skeleton::{skeleton_of, SkeletonResponse};

verus! {

/// The number of parses a batch keeps in flight.
pub const MAX_IN_FLIGHT: usize = 8;

/// The parser service: a registry of grammar adapters; batches keep at most `MAX_IN_FLIGHT`
/// parses in flight.
pub struct ParserServiceImpl {
    registry: Registry,
}

impl ParserServiceImpl {
    pub closed spec fn registry_spec(&self) -> Registry {
        self.registry
    }

    /// A service for the standard languages.
    pub fn new() -> (r: Self)
        ensures
            r.registry_spec().wf(),
            r.registry_spec().names() == standard_names(),
            r.registry_spec().adapters().map_values(|a: GrammarAdapter| adapter_view(a))
                == standard_adapters(),
    {
        ParserServiceImpl { registry: Registry::standard() }
    }

    pub fn registry(&self) -> (r: &Registry)
        ensures
            *r == self.registry_spec(),
    {
        &self.registry
    }

    /// The standard languages, in their fixed order.
    pub fn get_supported_languages_list() -> (r: Vec<LanguageInfo>)
        ensures
            r@.map_values(|l: LanguageInfo| l.name@) == standard_names(),
            r@.map_values(|l: LanguageInfo| info_view(l)) == standard_adapters().map_values(
                |a| listing(a),
            ),
    {
        let reg = Registry::standard();
        let r = reg.list_languages();
        assert(r@.map_values(|l: LanguageInfo| l.name@) =~= reg.names());
        assert(r@.map_values(|l: LanguageInfo| info_view(l)) =~~= standard_adapters().map_values(
            |a| listing(a),
        ));
        r
    }

    /// The languages this service parses, in registration order.
    pub fn get_supported_languages(&self) -> (r: Vec<LanguageInfo>)
        ensures
            r@.map_values(|l: LanguageInfo| l.name@) == self.registry_spec().names(),
            r@.map_values(|l: LanguageInfo| info_view(l)) == self.registry_spec().adapters().map_values(
                |a: GrammarAdapter| listing(adapter_view(a)),
            ),
    {
        let r = self.registry.list_languages();
        assert(r@.map_values(|l: LanguageInfo| l.name@) =~= self.registry_spec().names());
        r
    }

    /// Parses one file: the response `parse_one` gives.
    pub fn parse_file(&self, req: &ParseRequest) -> (r: ParseResponse)
        ensures
            response_view(r) == request_response(self.registry_spec().adapters(), *req),
            r.root.is_some() ==> node_wf(node_view(r.root.unwrap())),
    {
        parse_one(&self.registry, req)
    }

    /// Parses a batch with at most `MAX_IN_FLIGHT` parses in flight; one response per
    /// request, correlated by `file_id`, in any order.
    pub fn parse_batch(&self, reqs: &Vec<ParseRequest>) -> (r: Vec<ParseResponse>)
        ensures
            r@.len() == reqs@.len(),
            resp_views(r@).to_multiset() == expected_responses(self.registry_spec(), reqs@).to_multiset(),
            resp_ids(r@).to_multiset() == req_ids(reqs@).to_multiset(),
            trees_wf(r@),
    {
        run_batch(&self.registry, reqs, MAX_IN_FLIGHT)
    }

    /// The skeleton and public signatures of one file; empty for an unsupported language.
    pub fn extract_skeleton(&self, req: &ParseRequest) -> (r: SkeletonResponse)
        ensures
            r.file_id@ == req.file_id@,
            r.file_path@ == req.file_path@,
            index_of_name(self.registry_spec().adapters(), req.language@, 0) == -1
                ==> r.skeleton@.len() == 0 && r.public_api@.len() == 0 && r.error@
                == crate::engine::unsupported_message(req.language@),
            index_of_name(self.registry_spec().adapters(), req.language@, 0) != -1
                ==> r.error@.len() == 0,
            index_of_name(self.registry_spec().adapters(), req.language@, 0) != -1 ==> (
                r.skeleton@,
                r.public_api@.map_values(|x: String| x@),
            ) == skeleton_of(
                req.content@,
                self.registry_spec().adapters()[index_of_name(
                    self.registry_spec().adapters(),
                    req.language@,
                    0,
                )],
            ),
    {
        crate::skeleton::extract_skeleton(&self.registry, req)
    }
}

} // verus!
