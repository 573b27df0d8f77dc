//! Domain-separation prefixes of every BLAKE3 identity the solver computes.
use vstd::prelude::*;

verus! {

/// ASCII `solvers.multiway.history.v1`: domain of public-history child keys.
pub open spec fn history_domain() -> Seq<u8> {
    seq![115, 111, 108, 118, 101, 114, 115, 46, 109, 117, 108, 116, 105, 119, 97, 121, 46, 104, 105, 115, 116, 111, 114, 121, 46, 118, 49]
}

/// Executable [`history_domain`].
pub fn history_domain_bytes() -> (r: Vec<u8>)
    ensures
        r@ == history_domain(),
{
    let r = vec![115u8, 111u8, 108u8, 118u8, 101u8, 114u8, 115u8, 46u8, 109u8, 117u8, 108u8, 116u8, 105u8, 119u8, 97u8, 121u8, 46u8, 104u8, 105u8, 115u8, 116u8, 111u8, 114u8, 121u8, 46u8, 118u8, 49u8];
    assert(r@ =~= history_domain());
    r
}

/// ASCII `solvers.multiway.mccfr-deal.v1`: domain of per-traversal deal streams.
pub open spec fn deal_domain() -> Seq<u8> {
    seq![115, 111, 108, 118, 101, 114, 115, 46, 109, 117, 108, 116, 105, 119, 97, 121, 46, 109, 99, 99, 102, 114, 45, 100, 101, 97, 108, 46, 118, 49]
}

/// Executable [`deal_domain`].
pub fn deal_domain_bytes() -> (r: Vec<u8>)
    ensures
        r@ == deal_domain(),
{
    let r = vec![115u8, 111u8, 108u8, 118u8, 101u8, 114u8, 115u8, 46u8, 109u8, 117u8, 108u8, 116u8, 105u8, 119u8, 97u8, 121u8, 46u8, 109u8, 99u8, 99u8, 102u8, 114u8, 45u8, 100u8, 101u8, 97u8, 108u8, 46u8, 118u8, 49u8];
    assert(r@ =~= deal_domain());
    r
}

/// ASCII `solvers.multiway.mccfr-actions.v1`: domain of per-traversal action streams.
pub open spec fn action_domain() -> Seq<u8> {
    seq![115, 111, 108, 118, 101, 114, 115, 46, 109, 117, 108, 116, 105, 119, 97, 121, 46, 109, 99, 99, 102, 114, 45, 97, 99, 116, 105, 111, 110, 115, 46, 118, 49]
}

/// Executable [`action_domain`].
pub fn action_domain_bytes() -> (r: Vec<u8>)
    ensures
        r@ == action_domain(),
{
    let r = vec![115u8, 111u8, 108u8, 118u8, 101u8, 114u8, 115u8, 46u8, 109u8, 117u8, 108u8, 116u8, 105u8, 119u8, 97u8, 121u8, 46u8, 109u8, 99u8, 99u8, 102u8, 114u8, 45u8, 97u8, 99u8, 116u8, 105u8, 111u8, 110u8, 115u8, 46u8, 118u8, 49u8];
    assert(r@ =~= action_domain());
    r
}

/// ASCII `solvers.multiway.profile-evaluation-deal.v1`: domain of profile-evaluation deal streams.
pub open spec fn evaluation_deal_domain() -> Seq<u8> {
    seq![115, 111, 108, 118, 101, 114, 115, 46, 109, 117, 108, 116, 105, 119, 97, 121, 46, 112, 114, 111, 102, 105, 108, 101, 45, 101, 118, 97, 108, 117, 97, 116, 105, 111, 110, 45, 100, 101, 97, 108, 46, 118, 49]
}

/// Executable [`evaluation_deal_domain`].
pub fn evaluation_deal_domain_bytes() -> (r: Vec<u8>)
    ensures
        r@ == evaluation_deal_domain(),
{
    let r = vec![115u8, 111u8, 108u8, 118u8, 101u8, 114u8, 115u8, 46u8, 109u8, 117u8, 108u8, 116u8, 105u8, 119u8, 97u8, 121u8, 46u8, 112u8, 114u8, 111u8, 102u8, 105u8, 108u8, 101u8, 45u8, 101u8, 118u8, 97u8, 108u8, 117u8, 97u8, 116u8, 105u8, 111u8, 110u8, 45u8, 100u8, 101u8, 97u8, 108u8, 46u8, 118u8, 49u8];
    assert(r@ =~= evaluation_deal_domain());
    r
}

/// ASCII `solvers.multiway.profile-evaluation-deviation.v1`: domain of profile-evaluation deviator action streams.
pub open spec fn evaluation_deviation_domain() -> Seq<u8> {
    seq![115, 111, 108, 118, 101, 114, 115, 46, 109, 117, 108, 116, 105, 119, 97, 121, 46, 112, 114, 111, 102, 105, 108, 101, 45, 101, 118, 97, 108, 117, 97, 116, 105, 111, 110, 45, 100, 101, 118, 105, 97, 116, 105, 111, 110, 46, 118, 49]
}

/// Executable [`evaluation_deviation_domain`].
pub fn evaluation_deviation_domain_bytes() -> (r: Vec<u8>)
    ensures
        r@ == evaluation_deviation_domain(),
{
    let r = vec![115u8, 111u8, 108u8, 118u8, 101u8, 114u8, 115u8, 46u8, 109u8, 117u8, 108u8, 116u8, 105u8, 119u8, 97u8, 121u8, 46u8, 112u8, 114u8, 111u8, 102u8, 105u8, 108u8, 101u8, 45u8, 101u8, 118u8, 97u8, 108u8, 117u8, 97u8, 116u8, 105u8, 111u8, 110u8, 45u8, 100u8, 101u8, 118u8, 105u8, 97u8, 116u8, 105u8, 111u8, 110u8, 46u8, 118u8, 49u8];
    assert(r@ =~= evaluation_deviation_domain());
    r
}

/// ASCII `solvers.multiway.profile-evaluation-baseline.v1`: domain of profile-evaluation baseline action streams.
pub open spec fn evaluation_baseline_domain() -> Seq<u8> {
    seq![115, 111, 108, 118, 101, 114, 115, 46, 109, 117, 108, 116, 105, 119, 97, 121, 46, 112, 114, 111, 102, 105, 108, 101, 45, 101, 118, 97, 108, 117, 97, 116, 105, 111, 110, 45, 98, 97, 115, 101, 108, 105, 110, 101, 46, 118, 49]
}

/// Executable [`evaluation_baseline_domain`].
pub fn evaluation_baseline_domain_bytes() -> (r: Vec<u8>)
    ensures
        r@ == evaluation_baseline_domain(),
{
    let r = vec![115u8, 111u8, 108u8, 118u8, 101u8, 114u8, 115u8, 46u8, 109u8, 117u8, 108u8, 116u8, 105u8, 119u8, 97u8, 121u8, 46u8, 112u8, 114u8, 111u8, 102u8, 105u8, 108u8, 101u8, 45u8, 101u8, 118u8, 97u8, 108u8, 117u8, 97u8, 116u8, 105u8, 111u8, 110u8, 45u8, 98u8, 97u8, 115u8, 101u8, 108u8, 105u8, 110u8, 101u8, 46u8, 118u8, 49u8];
    assert(r@ =~= evaluation_baseline_domain());
    r
}

/// ASCII `solvers.multiway.solver-config.v4`: domain of solver configuration fingerprints.
pub open spec fn config_domain() -> Seq<u8> {
    seq![115, 111, 108, 118, 101, 114, 115, 46, 109, 117, 108, 116, 105, 119, 97, 121, 46, 115, 111, 108, 118, 101, 114, 45, 99, 111, 110, 102, 105, 103, 46, 118, 52]
}

/// Executable [`config_domain`].
pub fn config_domain_bytes() -> (r: Vec<u8>)
    ensures
        r@ == config_domain(),
{
    let r = vec![115u8, 111u8, 108u8, 118u8, 101u8, 114u8, 115u8, 46u8, 109u8, 117u8, 108u8, 116u8, 105u8, 119u8, 97u8, 121u8, 46u8, 115u8, 111u8, 108u8, 118u8, 101u8, 114u8, 45u8, 99u8, 111u8, 110u8, 102u8, 105u8, 103u8, 46u8, 118u8, 52u8];
    assert(r@ =~= config_domain());
    r
}

/// ASCII `solvers.multiway.preflop-deviator-actions.v1\0`: domain of fitted preflop deviator fingerprints (NUL-terminated).
pub open spec fn deviator_domain() -> Seq<u8> {
    seq![115, 111, 108, 118, 101, 114, 115, 46, 109, 117, 108, 116, 105, 119, 97, 121, 46, 112, 114, 101, 102, 108, 111, 112, 45, 100, 101, 118, 105, 97, 116, 111, 114, 45, 97, 99, 116, 105, 111, 110, 115, 46, 118, 49, 0]
}

/// Executable [`deviator_domain`].
pub fn deviator_domain_bytes() -> (r: Vec<u8>)
    ensures
        r@ == deviator_domain(),
{
    let r = vec![115u8, 111u8, 108u8, 118u8, 101u8, 114u8, 115u8, 46u8, 109u8, 117u8, 108u8, 116u8, 105u8, 119u8, 97u8, 121u8, 46u8, 112u8, 114u8, 101u8, 102u8, 108u8, 111u8, 112u8, 45u8, 100u8, 101u8, 118u8, 105u8, 97u8, 116u8, 111u8, 114u8, 45u8, 97u8, 99u8, 116u8, 105u8, 111u8, 110u8, 115u8, 46u8, 118u8, 49u8, 0u8];
    assert(r@ =~= deviator_domain());
    r
}

/// ASCII `solvers.multiway.preflop-support-node.v1\0`: domain of preflop census node digests (NUL-terminated).
pub open spec fn census_node_domain() -> Seq<u8> {
    seq![115, 111, 108, 118, 101, 114, 115, 46, 109, 117, 108, 116, 105, 119, 97, 121, 46, 112, 114, 101, 102, 108, 111, 112, 45, 115, 117, 112, 112, 111, 114, 116, 45, 110, 111, 100, 101, 46, 118, 49, 0]
}

/// Executable [`census_node_domain`].
pub fn census_node_domain_bytes() -> (r: Vec<u8>)
    ensures
        r@ == census_node_domain(),
{
    let r = vec![115u8, 111u8, 108u8, 118u8, 101u8, 114u8, 115u8, 46u8, 109u8, 117u8, 108u8, 116u8, 105u8, 119u8, 97u8, 121u8, 46u8, 112u8, 114u8, 101u8, 102u8, 108u8, 111u8, 112u8, 45u8, 115u8, 117u8, 112u8, 112u8, 111u8, 114u8, 116u8, 45u8, 110u8, 111u8, 100u8, 101u8, 46u8, 118u8, 49u8, 0u8];
    assert(r@ =~= census_node_domain());
    r
}

/// ASCII `solvers.multiway.preflop-support-census.v1\0`: domain of preflop census fingerprints (NUL-terminated).
pub open spec fn census_domain() -> Seq<u8> {
    seq![115, 111, 108, 118, 101, 114, 115, 46, 109, 117, 108, 116, 105, 119, 97, 121, 46, 112, 114, 101, 102, 108, 111, 112, 45, 115, 117, 112, 112, 111, 114, 116, 45, 99, 101, 110, 115, 117, 115, 46, 118, 49, 0]
}

/// Executable [`census_domain`].
pub fn census_domain_bytes() -> (r: Vec<u8>)
    ensures
        r@ == census_domain(),
{
    let r = vec![115u8, 111u8, 108u8, 118u8, 101u8, 114u8, 115u8, 46u8, 109u8, 117u8, 108u8, 116u8, 105u8, 119u8, 97u8, 121u8, 46u8, 112u8, 114u8, 101u8, 102u8, 108u8, 111u8, 112u8, 45u8, 115u8, 117u8, 112u8, 112u8, 111u8, 114u8, 116u8, 45u8, 99u8, 101u8, 110u8, 115u8, 117u8, 115u8, 46u8, 118u8, 49u8, 0u8];
    assert(r@ =~= census_domain());
    r
}

} // verus!
