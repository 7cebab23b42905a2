//! The change of layout of the data preservers' profiles: the single URL and mode of a profile
//! become a list of direct RPC URLs, a list of proxied RPC URLs, an optional boot node URL, the
//! type of node and some additional information.
use vstd::prelude::*;
use std::collections::BTreeMap;
use crate::assignment::{AccountId, ParaId};
use crate::data_preservers::{Balance, ParaIdsFilter, ProfileId, ProfileMode, RegisteredProfile};
use vstd::std_specs::iter::IteratorSpec;

verus! {

/// The kind of node behind a profile.
#[derive(Debug, Clone, Copy, PartialEq, Eq, Structural)]
pub enum NodeType {
    Substrate,
    Frontier,
}

/// Data preserver profile in the new layout.
pub struct MigratedProfile<Req> {
    pub para_ids: ParaIdsFilter,
    pub assignment_request: Req,
    pub direct_rpc_urls: Vec<Vec<u8>>,
    pub proxy_rpc_urls: Vec<Vec<u8>>,
    pub bootnode_url: Option<Vec<u8>>,
    pub node_type: NodeType,
    pub additional_info: Vec<u8>,
}

/// Registered profile in the new layout.
pub struct MigratedRegisteredProfile<Req, W> {
    pub account: AccountId,
    pub deposit: Balance,
    pub profile: MigratedProfile<Req>,
    pub assignment: Option<(ParaId, W)>,
}

/// `new` is `old` in the new layout: the account, deposit, assignment, filter and request stay;
/// a boot node's URL becomes its boot node URL, an RPC node's URL its one direct RPC URL, and an
/// RPC node that supports Ethereum RPCs is a Frontier node; there is no proxied RPC URL and no
/// additional information.
pub open spec fn migrated<Req, W>(old: RegisteredProfile<Req, W>, new: MigratedRegisteredProfile<Req, W>) -> bool {
    &&& new.account == old.account
    &&& new.deposit == old.deposit
    &&& new.assignment == old.assignment
    &&& new.profile.para_ids == old.profile.para_ids
    &&& new.profile.assignment_request == old.profile.assignment_request
    &&& new.profile.proxy_rpc_urls@ == Seq::<Vec<u8>>::empty()
    &&& new.profile.additional_info@ == Seq::<u8>::empty()
    &&& match old.profile.mode {
        ProfileMode::Bootnode => {
            &&& new.profile.bootnode_url == Some(old.profile.url)
            &&& new.profile.direct_rpc_urls@ == Seq::<Vec<u8>>::empty()
            &&& new.profile.node_type == NodeType::Substrate
        },
        ProfileMode::Rpc { supports_ethereum_rpcs } => {
            &&& new.profile.bootnode_url is None
            &&& new.profile.direct_rpc_urls@ == seq![old.profile.url]
            &&& new.profile.node_type == (if supports_ethereum_rpcs { NodeType::Frontier } else { NodeType::Substrate })
        },
    }
}

/// Puts one registered profile in the new layout.
pub fn migrate_profile<Req, W>(old: RegisteredProfile<Req, W>) -> (new: MigratedRegisteredProfile<Req, W>)
    ensures
        migrated(old, new),
{
    let ghost before = old;
    let RegisteredProfile { account, deposit, profile, assignment } = old;
    let mut direct_rpc_urls: Vec<Vec<u8>> = Vec::new();
    let mut bootnode_url: Option<Vec<u8>> = None;
    let mut node_type = NodeType::Substrate;
    match profile.mode {
        ProfileMode::Bootnode => {
            bootnode_url = Some(profile.url);
        },
        ProfileMode::Rpc { supports_ethereum_rpcs } => {
            direct_rpc_urls.push(profile.url);
            if supports_ethereum_rpcs {
                node_type = NodeType::Frontier;
            }
        },
    }
    let new = MigratedRegisteredProfile {
        account,
        deposit,
        assignment,
        profile: MigratedProfile {
            para_ids: profile.para_ids,
            assignment_request: profile.assignment_request,
            direct_rpc_urls,
            proxy_rpc_urls: Vec::new(),
            bootnode_url,
            node_type,
            additional_info: Vec::new(),
        },
    };
    proof {
        assert(new.profile.direct_rpc_urls@ =~= (match before.profile.mode {
            ProfileMode::Bootnode => Seq::<Vec<u8>>::empty(),
            ProfileMode::Rpc { .. } => seq![before.profile.url],
        }));
    }
    new
}

/// The ids of the profiles, in increasing order.
fn profile_ids<Req, W>(m: &BTreeMap<ProfileId, RegisteredProfile<Req, W>>) -> (keys: Vec<ProfileId>)
    ensures
        keys@.to_set() == m@.dom(),
        keys@.no_duplicates(),
{
    let mut keys: Vec<ProfileId> = Vec::new();
    for k in it: m.keys()
        invariant
            keys@ == it.seq().take(it.index() as int).unref(),
            it.seq() == vstd::std_specs::btree::spec_keys_iter(m).remaining(),
    {
        keys.push(*k);
        proof {
            assert(it.seq().take(it.index() as int + 1).unref() =~= keys@);
        }
    }
    proof {
        broadcast use vstd::std_specs::btree::axiom_spec_keys_iter;
        let s = vstd::std_specs::btree::spec_keys_iter(m).remaining();
        assert(keys@ =~= s.unref());
    }
    keys
}

/// Puts every registered profile in the new layout, under the same id, and returns them with
/// their number, which is how many were read and written.
pub fn migrate_profiles_content<Req, W>(
    profiles: BTreeMap<ProfileId, RegisteredProfile<Req, W>>,
) -> (r: (BTreeMap<ProfileId, MigratedRegisteredProfile<Req, W>>, usize))
    ensures
        r.0@.dom() == profiles@.dom(),
        forall|id: ProfileId| #[trigger] r.0@.contains_key(id) ==> migrated(profiles@[id], r.0@[id]),
        r.1 == profiles@.dom().len(),
{
    broadcast use vstd::std_specs::btree::group_btree_axioms;
    let ids = profile_ids(&profiles);
    let ghost all = profiles@;
    let mut rest = profiles;
    let mut out: BTreeMap<ProfileId, MigratedRegisteredProfile<Req, W>> = BTreeMap::new();
    let mut i: usize = 0;
    while i < ids.len()
        invariant
            0 <= i <= ids.len(),
            ids@.to_set() == all.dom(),
            ids@.no_duplicates(),
            out@.dom() == ids@.take(i as int).to_set(),
            rest@ == all.remove_keys(ids@.take(i as int).to_set()),
            forall|id: ProfileId| #[trigger] out@.contains_key(id) ==> migrated(all[id], out@[id]),
        decreases ids.len() - i,
    {
        let id = ids[i];
        proof {
            assert(ids@.to_set().contains(ids@[i as int]));
            assert(!ids@.take(i as int).to_set().contains(id)) by {
                if ids@.take(i as int).contains(id) {
                    let j = choose|j: int| 0 <= j < i && #[trigger] ids@.take(i as int)[j] == id;
                    assert(ids@[j] == ids@[i as int]);
                }
            }
        }
        match rest.remove(&id) {
            Some(p) => {
                let new = migrate_profile(p);
                out.insert(id, new);
            },
            None => {
                assert(false);
            },
        }
        proof {
            assert(ids@.take(i as int + 1) =~= ids@.take(i as int).push(id));
            assert forall|x: ProfileId| ids@.take(i as int + 1).contains(x) <==> (ids@.take(i as int).contains(x) || x == id) by {
                if ids@.take(i as int + 1).contains(x) {
                    let j = choose|j: int| 0 <= j < i + 1 && #[trigger] ids@.take(i as int + 1)[j] == x;
                    if j < i {
                        assert(ids@.take(i as int)[j] == x);
                    }
                }
                if ids@.take(i as int).contains(x) {
                    let j = choose|j: int| 0 <= j < i && #[trigger] ids@.take(i as int)[j] == x;
                    assert(ids@.take(i as int + 1)[j] == x);
                }
                if x == id {
                    assert(ids@.take(i as int + 1)[i as int] == x);
                }
            }
            assert(ids@.take(i as int + 1).to_set() =~= ids@.take(i as int).to_set().insert(id));
            assert(out@.dom() =~= ids@.take(i as int + 1).to_set());
            assert(rest@ =~= all.remove_keys(ids@.take(i as int + 1).to_set()));
        }
        i = i + 1;
    }
    proof {
        assert(ids@.take(ids@.len() as int) =~= ids@);
        ids@.unique_seq_to_set();
    }
    (out, ids.len())
}

} // verus!
