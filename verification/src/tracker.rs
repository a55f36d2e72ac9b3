//! Request/response correlation.
//!
//! Requests whose method a registered plugin watches are remembered by id;
//! when the matching response arrives, the entry is removed and the
//! plugin's actions are reported to the caller, exactly once
//! ([`lemma_tracker_symmetry`]).

use vstd::prelude::*;
use std::collections::HashMap;
use crate::config::ProxyConfig;
use crate::json::{json_id, json_id_of};
use crate::search::{contains_seq, contains_sub};
use crate::text::{ascii_bytes, bytes_eq, concat_bytes, str_bytes};
use crate::types::MessageError;

verus! {

broadcast use vstd::std_specs::hash::group_hash_axioms;

/// What a handler does to a matched response.
#[derive(Clone, Copy, PartialEq, Eq, Structural, Debug)]
pub enum PluginAction {
    /// Mirror container-only files named by a goto response and point its
    /// URIs at the mirrors.
    RedirectGoto,
}

/// One registered plugin: the method names it watches, and its action.
pub struct MethodHandler {
    pub methods: Vec<Vec<u8>>,
    pub action: PluginAction,
}

/// Whether a handler watches the given method.
pub open spec fn handler_matches(h: MethodHandler, m: Seq<u8>) -> bool {
    exists|i: int| 0 <= i < h.methods@.len() && #[trigger] h.methods@[i]@ == m
}

/// The actions of the handlers watching `m`, in registration order.
pub open spec fn actions_for(hs: Seq<MethodHandler>, m: Seq<u8>) -> Seq<PluginAction>
    decreases hs.len(),
{
    if hs.len() == 0 {
        Seq::empty()
    } else {
        actions_for(hs.drop_last(), m) + (if handler_matches(hs.last(), m) {
            seq![hs.last().action]
        } else {
            Seq::empty()
        })
    }
}

/// The ordered plugin registry.
pub struct PluginRegistry {
    pub handlers: Vec<MethodHandler>,
}

impl Default for PluginRegistry {
    fn default() -> (r: PluginRegistry)
        ensures
            r.handlers@.len() == 0,
    {
        PluginRegistry::new()
    }
}

impl PluginRegistry {
    /// An empty registry.
    pub fn new() -> (r: PluginRegistry)
        ensures
            r.handlers@.len() == 0,
    {
        PluginRegistry { handlers: Vec::new() }
    }

    /// Register an action for a set of method names; later registrations
    /// run after earlier ones.
    pub fn register(&mut self, methods: Vec<Vec<u8>>, action: PluginAction)
        ensures
            final(self).handlers@ == old(self).handlers@.push(MethodHandler { methods, action }),
    {
        self.handlers.push(MethodHandler { methods, action });
    }

    /// The actions registered for a method, in order.
    fn actions(&self, m: &[u8]) -> (r: Vec<PluginAction>)
        ensures
            r@ == actions_for(self.handlers@, m@),
    {
        let mut out: Vec<PluginAction> = Vec::new();
        let mut j: usize = 0;
        proof {
            assert(self.handlers@.take(0) =~= Seq::<MethodHandler>::empty());
            assert(out@ =~= actions_for(self.handlers@.take(0), m@));
        }
        while j < self.handlers.len()
            invariant
                j <= self.handlers@.len(),
                self.handlers@.len() == self.handlers.len(),
                out@ == actions_for(self.handlers@.take(j as int), m@),
            decreases self.handlers@.len() - j,
        {
            let h = &self.handlers[j];
            let mut hit = false;
            let mut i: usize = 0;
            while i < h.methods.len()
                invariant
                    i <= h.methods@.len(),
                    h.methods@.len() == h.methods.len(),
                    h == &self.handlers@[j as int],
                    !hit ==> forall|x: int| 0 <= x < i ==> h.methods@[x]@ != m@,
                    hit ==> handler_matches(*h, m@),
                decreases h.methods@.len() - i,
            {
                if bytes_eq(h.methods[i].as_slice(), m) {
                    proof {
                        assert(h.methods@[i as int]@ == m@);
                    }
                    hit = true;
                }
                i = i + 1;
            }
            proof {
                assert(self.handlers@.take(j + 1).drop_last() =~= self.handlers@.take(j as int));
                assert(self.handlers@.take(j + 1).last() == self.handlers@[j as int]);
            }
            if hit {
                out.push(h.action);
                proof {
                    assert(out@ =~= actions_for(self.handlers@.take(j as int), m@) + seq![
                        self.handlers@[j as int].action,
                    ]);
                }
            } else {
                proof {
                    assert(!handler_matches(self.handlers@[j as int], m@));
                    assert(out@ =~= actions_for(self.handlers@.take(j + 1), m@));
                }
            }
            j = j + 1;
        }
        proof {
            assert(self.handlers@.take(self.handlers@.len() as int) =~= self.handlers@);
        }
        out
    }
}

/// The byte pattern announcing a request for `m`.
pub open spec fn method_pattern(m: Seq<u8>) -> Seq<u8> {
    ascii_bytes("\"method\":\""@) + m + seq![34u8]
}

/// The first of the listed methods whose pattern occurs in the body.
pub open spec fn scan_list(ms: Seq<Vec<u8>>, b: Seq<u8>) -> Option<Vec<u8>>
    decreases ms.len(),
{
    if ms.len() == 0 {
        None
    } else if contains_seq(b, method_pattern(ms.first()@)) {
        Some(ms.first())
    } else {
        scan_list(ms.drop_first(), b)
    }
}

/// The first watched method that the body announces, scanning handlers in
/// registration order.
pub open spec fn scan_handlers(hs: Seq<MethodHandler>, b: Seq<u8>) -> Option<Vec<u8>>
    decreases hs.len(),
{
    if hs.len() == 0 {
        None
    } else {
        match scan_list(hs.first().methods@, b) {
            Some(m) => Some(m),
            None => scan_handlers(hs.drop_first(), b),
        }
    }
}

/// Cheap byte scan for one method name, as executable code.
fn method_occurs(b: &[u8], m: &[u8]) -> (r: bool)
    ensures
        r == contains_seq(b@, method_pattern(m@)),
{
    proof {
        reveal_strlit("\"method\":\"");
    }
    let mut pattern = concat_bytes(str_bytes("\"method\":\"").as_slice(), m);
    pattern.push(34u8);
    proof {
        assert(pattern@ =~= method_pattern(m@));
    }
    contains_sub(b, pattern.as_slice())
}

/// Scan a handler's method list, as executable code.
fn scan_list_exec(ms: &Vec<Vec<u8>>, b: &[u8]) -> (r: Option<Vec<u8>>)
    ensures
        match scan_list(ms@, b@) {
            Some(m) => r matches Some(v) && v@ == m@,
            None => r is None,
        },
{
    let mut i: usize = 0;
    proof {
        assert(ms@.skip(0) =~= ms@);
    }
    while i < ms.len()
        invariant
            i <= ms@.len(),
            ms@.len() == ms.len(),
            scan_list(ms@, b@) == scan_list(ms@.skip(i as int), b@),
        decreases ms@.len() - i,
    {
        proof {
            assert(ms@.skip(i as int).first() == ms@[i as int]);
            assert(ms@.skip(i as int).drop_first() =~= ms@.skip(i + 1));
        }
        if method_occurs(b, ms[i].as_slice()) {
            return Some(crate::text::to_vec_bytes(ms[i].as_slice()));
        }
        i = i + 1;
    }
    proof {
        assert(ms@.skip(ms@.len() as int) =~= Seq::<Vec<u8>>::empty());
    }
    None
}

/// The pending map as mathematics: id to method bytes.
pub open spec fn views_map(m: Map<u64, Vec<u8>>) -> Map<u64, Seq<u8>> {
    m.map_values(|v: Vec<u8>| v@)
}

/// What the server-side observation decides: `None` on a JSON parse
/// failure; otherwise the pending map afterwards and, when the response
/// answers a tracked request, its id, its method and the actions to run.
pub open spec fn server_observe_spec(
    cfg: ProxyConfig,
    hs: Seq<MethodHandler>,
    pending: Map<u64, Seq<u8>>,
    b: Seq<u8>,
) -> Option<(Map<u64, Seq<u8>>, Option<(u64, Seq<u8>, Seq<PluginAction>)>)> {
    if !cfg.use_docker || pending.len() == 0 {
        Some((pending, None))
    } else {
        match json_id_of(b) {
            None => None,
            Some(None) => Some((pending, None)),
            Some(Some(id)) => if pending.dom().contains(id) {
                Some((pending.remove(id), Some((id, pending[id], actions_for(hs, pending[id])))))
            } else {
                Some((pending, None))
            },
        }
    }
}

/// What the client-side observation decides: `None` on a JSON parse
/// failure of a watched request; otherwise the pending map afterwards.
pub open spec fn client_observe_spec(
    cfg: ProxyConfig,
    hs: Seq<MethodHandler>,
    pending: Map<u64, Seq<u8>>,
    b: Seq<u8>,
) -> Option<Map<u64, Seq<u8>>> {
    if !cfg.use_docker {
        Some(pending)
    } else {
        match scan_handlers(hs, b) {
            None => Some(pending),
            Some(m) => match json_id_of(b) {
                None => None,
                Some(None) => Some(pending),
                Some(Some(id)) => Some(pending.insert(id, m@)),
            },
        }
    }
}

/// What the server side reports for one response.
pub enum ServerVerdict {
    /// Forward the message unchanged.
    Pass,
    /// The response answers a tracked request: run these actions on it.
    Matched { id: u64, method: Vec<u8>, actions: Vec<PluginAction> },
}

/// The request tracker: the pending requests, the plugin registry, and the
/// configuration the pipeline runs under.
pub struct RequestTracker {
    pub map: HashMap<u64, Vec<u8>>,
    pub plugins: PluginRegistry,
    pub config: ProxyConfig,
}

impl RequestTracker {
    /// The tracked requests: id to the method it was recorded under.
    pub open spec fn pending(self) -> Map<u64, Seq<u8>> {
        views_map(self.map@)
    }

    /// A tracker with nothing pending.
    pub fn new(config: ProxyConfig, plugins: PluginRegistry) -> (r: RequestTracker)
        ensures
            r.pending() == Map::<u64, Seq<u8>>::empty(),
            r.plugins == plugins,
            r.config == config,
    {
        let r = RequestTracker { map: HashMap::new(), plugins, config };
        proof {
            assert(r.pending() =~= Map::<u64, Seq<u8>>::empty());
        }
        r
    }

    /// Remember a request id and the method it carries.
    fn track(&mut self, id: u64, method: Vec<u8>)
        ensures
            final(self).pending() == old(self).pending().insert(id, method@),
            final(self).plugins == old(self).plugins,
            final(self).config == old(self).config,
    {
        let ghost m0 = self.map@;
        self.map.insert(id, method);
        proof {
            assert(views_map(self.map@) =~= views_map(m0).insert(id, method@));
        }
    }

    /// Client side: remember the id of a request whose method a plugin
    /// watches. The message itself is never modified. A watched request
    /// that fails to parse as JSON is an error.
    pub fn observe_client(&mut self, raw_bytes: &Vec<u8>) -> (r: Result<(), MessageError>)
        ensures
            final(self).plugins == old(self).plugins,
            final(self).config == old(self).config,
            match client_observe_spec(
                old(self).config,
                old(self).plugins.handlers@,
                old(self).pending(),
                raw_bytes@,
            ) {
                Some(p) => r is Ok && final(self).pending() == p,
                None => r is Err && final(self).pending() == old(self).pending(),
            },
    {
        if !self.config.use_docker {
            return Ok(());
        }
        let found = {
            let mut j: usize = 0;
            let mut hit: Option<Vec<u8>> = None;
            proof {
                assert(self.plugins.handlers@.skip(0) =~= self.plugins.handlers@);
            }
            loop
                invariant_except_break
                    hit is None,
                invariant
                    j <= self.plugins.handlers@.len(),
                    self.plugins.handlers@.len() == self.plugins.handlers.len(),
                    scan_handlers(self.plugins.handlers@, raw_bytes@) == scan_handlers(
                        self.plugins.handlers@.skip(j as int),
                        raw_bytes@,
                    ),
                ensures
                    match scan_handlers(self.plugins.handlers@, raw_bytes@) {
                        Some(m) => hit matches Some(v) && v@ == m@,
                        None => hit is None,
                    },
                decreases self.plugins.handlers@.len() - j,
            {
                if j >= self.plugins.handlers.len() {
                    proof {
                        assert(self.plugins.handlers@.skip(j as int) =~= Seq::<
                            MethodHandler,
                        >::empty());
                    }
                    break ;
                }
                proof {
                    assert(self.plugins.handlers@.skip(j as int).first()
                        == self.plugins.handlers@[j as int]);
                    assert(self.plugins.handlers@.skip(j as int).drop_first()
                        =~= self.plugins.handlers@.skip(j + 1));
                }
                match scan_list_exec(&self.plugins.handlers[j].methods, raw_bytes.as_slice()) {
                    Some(m) => {
                        hit = Some(m);
                        break ;
                    },
                    None => {
                        j = j + 1;
                    },
                }
            }
            hit
        };
        match found {
            None => Ok(()),
            Some(m) => {
                match json_id(raw_bytes.as_slice()) {
                    None => MessageError::err(),
                    Some(None) => Ok(()),
                    Some(Some(id)) => {
                        self.track(id, m);
                        Ok(())
                    },
                }
            },
        }
    }

    /// Server side: when a response answers a tracked request, forget the
    /// entry and report the actions to run on the response. Anything while
    /// requests are pending that fails to parse as JSON is an error.
    pub fn observe_server(&mut self, raw_bytes: &Vec<u8>) -> (r: Result<ServerVerdict, MessageError>)
        ensures
            final(self).plugins == old(self).plugins,
            final(self).config == old(self).config,
            match server_observe_spec(
                old(self).config,
                old(self).plugins.handlers@,
                old(self).pending(),
                raw_bytes@,
            ) {
                None => r is Err && final(self).pending() == old(self).pending(),
                Some(p) => r matches Ok(v) && final(self).pending() == p.0 && (match p.1 {
                    None => v is Pass,
                    Some(hit) => v matches ServerVerdict::Matched { id, method, actions }
                        && id == hit.0 && method@ == hit.1 && actions@ == hit.2,
                }),
            },
    {
        proof {
            assert(self.pending().dom() =~= self.map@.dom());
        }
        if !self.config.use_docker || self.map.is_empty() {
            return Ok(ServerVerdict::Pass);
        }
        match json_id(raw_bytes.as_slice()) {
            None => MessageError::err(),
            Some(None) => Ok(ServerVerdict::Pass),
            Some(Some(id)) => {
                let ghost m0 = self.map@;
                match self.map.remove(&id) {
                    None => {
                        proof {
                            assert(views_map(self.map@) =~= views_map(m0));
                        }
                        Ok(ServerVerdict::Pass)
                    },
                    Some(method) => {
                        proof {
                            assert(views_map(self.map@) =~= views_map(m0).remove(id));
                            assert(views_map(m0)[id] == method@);
                        }
                        let actions = self.plugins.actions(method.as_slice());
                        Ok(ServerVerdict::Matched { id, method, actions })
                    },
                }
            },
        }
    }
}

/// Tracker symmetry: for an id not already pending, tracking it and then
/// observing the response that carries the same id removes exactly that
/// entry — the pending map returns to what it was — recovers the method the
/// id was tracked under, and triggers the actions registered for that
/// method, each exactly once, in registration order.
pub proof fn lemma_tracker_symmetry(
    cfg: ProxyConfig,
    hs: Seq<MethodHandler>,
    pending: Map<u64, Seq<u8>>,
    id: u64,
    m: Seq<u8>,
    b: Seq<u8>,
)
    requires
        cfg.use_docker,
        pending.dom().finite(),
        !pending.dom().contains(id),
        json_id_of(b) == Some(Some(id)),
    ensures
        server_observe_spec(cfg, hs, pending.insert(id, m), b) == Some(
            (pending, Some((id, m, actions_for(hs, m)))),
        ),
{
    let recorded = pending.insert(id, m);
    assert(recorded.dom() =~= pending.dom().insert(id));
    assert(recorded.dom().len() == pending.dom().len() + 1);
    assert(recorded.len() > 0);
    assert(recorded.remove(id) =~= pending);
    assert(recorded[id] == m);
}

/// The goto-style methods whose responses the library binder rewrites.
pub fn goto_methods() -> (r: Vec<Vec<u8>>)
    ensures
        r@.len() == 3,
        r@[0]@ == ascii_bytes("textDocument/definition"@),
        r@[1]@ == ascii_bytes("textDocument/declaration"@),
        r@[2]@ == ascii_bytes("textDocument/typeDefinition"@),
{
    proof {
        reveal_strlit("textDocument/definition");
        reveal_strlit("textDocument/declaration");
        reveal_strlit("textDocument/typeDefinition");
    }
    let mut r: Vec<Vec<u8>> = Vec::new();
    r.push(str_bytes("textDocument/definition"));
    r.push(str_bytes("textDocument/declaration"));
    r.push(str_bytes("textDocument/typeDefinition"));
    r
}

impl RequestTracker {
    /// Observe one message by its direction: requests from the client are
    /// remembered, responses from the server are matched (see
    /// [`RequestTracker::observe_client`] and
    /// [`RequestTracker::observe_server`]). Client messages always pass.
    pub fn check_for_methods(&mut self, raw_bytes: &Vec<u8>, pair: &crate::types::Pair) -> (r:
        Result<ServerVerdict, MessageError>)
        ensures
            final(self).plugins == old(self).plugins,
            final(self).config == old(self).config,
            match pair {
                crate::types::Pair::Client => match client_observe_spec(
                    old(self).config,
                    old(self).plugins.handlers@,
                    old(self).pending(),
                    raw_bytes@,
                ) {
                    Some(p) => r matches Ok(v) && v is Pass && final(self).pending() == p,
                    None => r is Err && final(self).pending() == old(self).pending(),
                },
                crate::types::Pair::Server => match server_observe_spec(
                    old(self).config,
                    old(self).plugins.handlers@,
                    old(self).pending(),
                    raw_bytes@,
                ) {
                    None => r is Err && final(self).pending() == old(self).pending(),
                    Some(p) => r matches Ok(v) && final(self).pending() == p.0 && (match p.1 {
                        None => v is Pass,
                        Some(hit) => v matches ServerVerdict::Matched { id, method, actions }
                            && id == hit.0 && method@ == hit.1 && actions@ == hit.2,
                    }),
                },
            },
    {
        match pair {
            crate::types::Pair::Client => match self.observe_client(raw_bytes) {
                Ok(()) => Ok(ServerVerdict::Pass),
                Err(e) => Err(e),
            },
            crate::types::Pair::Server => self.observe_server(raw_bytes),
        }
    }
}

} // verus!
