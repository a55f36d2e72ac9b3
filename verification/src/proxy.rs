//! The per-message forwarding pipeline and the supervisor's decisions.
//!
//! For each direction the caller runs a read loop; every decision inside
//! it lives here: the client pipeline (process-id interception, the
//! once-only `initialize` root patch, the path rewrite, request tracking),
//! the server pipeline (the reverse rewrite, response matching), the goto
//! binding plan around the caller's file copies, and the empty-read
//! watchdog that ends a direction when its peer hangs.

use vstd::prelude::*;
use crate::binder::{
    bind_target_spec, bound_uri_spec, copied_uris, plan_goto, plan_uri_spec, strip_file_prefix,
    CopyTask,
};
use crate::config::{requires_patch_pid_spec, ProxyConfig};
use crate::json::{result_uris, result_uris_of, set_result_uris, set_result_uris_of};
use crate::pid::{init_pattern, pid_take_spec, PidHandler};
use crate::rewrite::{
    container_root_uri, ensure_root, ensure_root_spec, redirect_spec, redirect_uri,
};
use crate::search::{contains_seq, contains_sub};
use crate::text::str_bytes;
use crate::tracker::{
    client_observe_spec, server_observe_spec, PluginAction, RequestTracker, ServerVerdict,
};
use crate::types::{MessageError, Pair};

verus! {

/// Consecutive empty batches after which a direction shuts down cleanly:
/// this keeps a hung peer from pinning the proxy forever.
pub const MAX_EMPTY_RESPONSES_THRESHOLD: u64 = 15;

/// The empty-read watchdog of one direction.
pub struct EmptyWatch {
    pub count: u64,
}

impl EmptyWatch {
    /// A watchdog that has seen nothing yet.
    pub fn new() -> (r: EmptyWatch)
        ensures
            r.count == 0,
    {
        EmptyWatch { count: 0 }
    }

    /// Note one read batch: an empty batch counts toward the threshold, any
    /// non-empty batch resets the counter. Returns whether the direction
    /// should shut down.
    pub fn note_batch(&mut self, batch_len: usize) -> (shutdown: bool)
        ensures
            final(self).count == (if batch_len == 0 {
                if old(self).count < MAX_EMPTY_RESPONSES_THRESHOLD {
                    (old(self).count + 1) as u64
                } else {
                    old(self).count
                }
            } else {
                0
            }),
            shutdown == (final(self).count >= MAX_EMPTY_RESPONSES_THRESHOLD),
    {
        if batch_len == 0 {
            if self.count < MAX_EMPTY_RESPONSES_THRESHOLD {
                self.count = self.count + 1;
            }
        } else {
            self.count = 0;
        }
        self.count >= MAX_EMPTY_RESPONSES_THRESHOLD
    }
}

/// Client-side per-connection state: the process-id interceptor and the
/// once-only root patch.
pub struct ClientState {
    pub pid_handler: PidHandler,
    pub root_patched: bool,
}

impl ClientState {
    /// A fresh client side: nothing intercepted, nothing patched.
    pub fn new() -> (r: ClientState)
        ensures
            r.pid_handler.pid is None,
            !r.pid_handler.patched,
            !r.root_patched,
    {
        ClientState { pid_handler: PidHandler::new(), root_patched: false }
    }
}

/// The client pipeline's byte transformation after the process-id stage:
/// the once-only `initialize` root patch, then the path rewrite; nothing
/// when the container is not in use.
pub open spec fn client_stage_spec(cfg: ProxyConfig, b: Seq<u8>, root_patched: bool) -> Seq<u8> {
    let b2 = if cfg.use_docker && !root_patched && contains_seq(b, init_pattern()) {
        ensure_root_spec(b, container_root_uri(cfg))
    } else {
        b
    };
    if cfg.use_docker {
        redirect_spec(b2, cfg.local_path@, cfg.docker_internal_path@)
    } else {
        b2
    }
}

/// The server pipeline's byte transformation: the reverse path rewrite.
pub open spec fn server_stage_spec(cfg: ProxyConfig, b: Seq<u8>) -> Seq<u8> {
    if cfg.use_docker {
        redirect_spec(b, cfg.docker_internal_path@, cfg.local_path@)
    } else {
        b
    }
}

/// One client-to-server message through the whole pipeline: intercept the
/// process id (when this configuration asks for it), patch the workspace
/// root on the first `initialize`, rewrite host paths to container paths,
/// and remember the request id when a plugin watches its method. Returns
/// the bytes to forward to the server.
pub fn process_client_message(
    state: &mut ClientState,
    tracker: &mut RequestTracker,
    msg: Vec<u8>,
) -> (r: Result<Vec<u8>, MessageError>)
    ensures
        final(tracker).plugins == old(tracker).plugins,
        final(tracker).config == old(tracker).config,
        ({
            let cfg = old(tracker).config;
            let staged = if requires_patch_pid_spec(cfg) {
                pid_take_spec(old(state).pid_handler, msg@)
            } else {
                (old(state).pid_handler, msg@, false)
            };
            let out = client_stage_spec(cfg, staged.1, old(state).root_patched);
            &&& final(state).pid_handler == staged.0
            &&& final(state).root_patched == (old(state).root_patched || (cfg.use_docker
                && contains_seq(staged.1, init_pattern())))
            &&& match client_observe_spec(
                cfg,
                old(tracker).plugins.handlers@,
                old(tracker).pending(),
                out,
            ) {
                Some(p) => r matches Ok(o) && o@ == out && final(tracker).pending() == p,
                None => r is Err && final(tracker).pending() == old(tracker).pending(),
            }
        }),
{
    proof {
        reveal_strlit("\"method\":\"initialize\"");
    }
    let mut body = msg;
    if tracker.config.requires_patch_pid() {
        state.pid_handler.try_take_initialize_process_id(&mut body);
    }
    if tracker.config.use_docker {
        let pattern = str_bytes("\"method\":\"initialize\"");
        let is_init = contains_sub(body.as_slice(), pattern.as_slice());
        if is_init && !state.root_patched {
            ensure_root(&mut body, &tracker.config);
        }
        if is_init {
            state.root_patched = true;
        }
        redirect_uri(&mut body, &Pair::Client, &tracker.config);
    }
    match tracker.observe_client(&body) {
        Ok(()) => Ok(body),
        Err(e) => Err(e),
    }
}

/// What the server pipeline yields for one message.
pub enum ServerOutcome {
    /// Forward these bytes as they are.
    Forward(Vec<u8>),
    /// The message answers a tracked request: run the actions on it (for
    /// the goto binder, [`plan_goto_response`], the copies, then
    /// [`finish_binding`]) and forward the result.
    RunActions { msg: Vec<u8>, id: u64, method: Vec<u8>, actions: Vec<PluginAction> },
}

/// One server-to-client message through the pipeline: rewrite container
/// paths back to host paths, then match the response against the tracked
/// requests.
pub fn process_server_message(tracker: &mut RequestTracker, msg: Vec<u8>) -> (r: Result<
    ServerOutcome,
    MessageError,
>)
    ensures
        final(tracker).plugins == old(tracker).plugins,
        final(tracker).config == old(tracker).config,
        ({
            let cfg = old(tracker).config;
            let out = server_stage_spec(cfg, msg@);
            match server_observe_spec(
                cfg,
                old(tracker).plugins.handlers@,
                old(tracker).pending(),
                out,
            ) {
                None => r is Err && final(tracker).pending() == old(tracker).pending(),
                Some(p) => final(tracker).pending() == p.0 && (match p.1 {
                    None => r matches Ok(ServerOutcome::Forward(v)) && v@ == out,
                    Some(hit) => r matches Ok(
                        ServerOutcome::RunActions { msg: v, id, method, actions },
                    ) && v@ == out && id == hit.0 && method@ == hit.1 && actions@ == hit.2,
                }),
            }
        }),
{
    let mut body = msg;
    if tracker.config.use_docker {
        redirect_uri(&mut body, &Pair::Server, &tracker.config);
    }
    match tracker.observe_server(&body) {
        Err(e) => Err(e),
        Ok(ServerVerdict::Pass) => Ok(ServerOutcome::Forward(body)),
        Ok(ServerVerdict::Matched { id, method, actions }) => Ok(
            ServerOutcome::RunActions { msg: body, id, method, actions },
        ),
    }
}

/// The goto binder's plan for one response: the replacement for each URI of
/// the `result` array, and the files to mirror first.
pub struct GotoPlan {
    pub new_uris: Vec<Option<Vec<u8>>>,
    pub copies: Vec<CopyTask>,
}

/// The planned replacement for one URI read out of the response.
pub open spec fn plan_uri_deep(u: Option<Seq<u8>>, local: Seq<u8>, root: Seq<u8>) -> Option<
    Seq<u8>,
> {
    match u {
        None => None,
        Some(uri) => if !contains_seq(uri, local) {
            Some(bound_uri_spec(uri, root))
        } else {
            None
        },
    }
}

/// The URIs that get mirrored, in response order.
pub open spec fn copied_deep(us: Seq<Option<Seq<u8>>>, local: Seq<u8>) -> Seq<Seq<u8>>
    decreases us.len(),
{
    if us.len() == 0 {
        Seq::empty()
    } else {
        copied_deep(us.drop_last(), local) + (match us.last() {
            Some(u) => if !contains_seq(u, local) {
                seq![u]
            } else {
                Seq::empty()
            },
            None => Seq::empty(),
        })
    }
}

proof fn lemma_copied_bridge(uv: Seq<Option<Vec<u8>>>, local: Seq<u8>)
    ensures
        copied_uris(uv, local) == copied_deep(Seq::new(uv.len(), |i: int| uv[i].deep_view()), local),
    decreases uv.len(),
{
    let deep = Seq::new(uv.len(), |i: int| uv[i].deep_view());
    if uv.len() > 0 {
        lemma_copied_bridge(uv.drop_last(), local);
        assert(deep.drop_last() =~= Seq::new(
            uv.drop_last().len(),
            |i: int| uv.drop_last()[i].deep_view(),
        ));
        match uv.last() {
            Some(u) => {
                assert(deep.last() == Some(u@)) by {
                    assert(u.deep_view() =~= u@);
                }
                if !contains_seq(u@, local) {
                    assert(copied_uris(uv, local) =~= copied_deep(deep, local));
                } else {
                    assert(copied_uris(uv, local) =~= copied_deep(deep, local));
                }
            },
            None => {
                assert(copied_uris(uv, local) =~= copied_deep(deep, local));
            },
        }
    } else {
        assert(copied_uris(uv, local) =~= copied_deep(deep, local));
    }
}

/// Plan the goto binding for a matched response: `None` when the response
/// has no `result` array to bind; otherwise, for each URI in the response
/// that lies outside the host workspace, its mirror URI and the copy that
/// materializes the file.
pub fn plan_goto_response(msg: &[u8], local_path: &[u8], temp_root: &[u8]) -> (r: Option<GotoPlan>)
    ensures
        match result_uris_of(msg@) {
            None => r is None,
            Some(us) => r matches Some(plan) && plan.new_uris.deep_view().len() == us.len() && (
            forall|i: int|
                0 <= i < us.len() ==> #[trigger] plan.new_uris.deep_view()[i] == plan_uri_deep(
                    us[i],
                    local_path@,
                    temp_root@,
                )) && plan.copies@.len() == copied_deep(us, local_path@).len() && (forall|j: int|
                0 <= j < plan.copies@.len() ==> (
                #[trigger] plan.copies@[j].src@,
                plan.copies@[j].dest@,
                ) == (
                    strip_file_prefix(copied_deep(us, local_path@)[j]),
                    bind_target_spec(copied_deep(us, local_path@)[j], temp_root@),
                )),
        },
{
    match result_uris(msg) {
        None => None,
        Some(us_vec) => {
            let (new_uris, copies) = plan_goto(&us_vec, local_path, temp_root);
            proof {
                let us = us_vec.deep_view();
                assert(us =~= Seq::new(us_vec@.len(), |i: int| us_vec@[i].deep_view()));
                lemma_copied_bridge(us_vec@, local_path@);
                assert forall|i: int| 0 <= i < us.len() implies #[trigger] new_uris.deep_view()[i]
                    == plan_uri_deep(us[i], local_path@, temp_root@) by {
                    assert(new_uris.deep_view()[i] == new_uris@[i].deep_view());
                    assert(us[i] == us_vec@[i].deep_view());
                    match us_vec@[i] {
                        Some(u) => {
                            assert(u.deep_view() =~= u@);
                        },
                        None => {},
                    }
                    match new_uris@[i] {
                        Some(nu) => {
                            assert(nu.deep_view() =~= nu@);
                        },
                        None => {},
                    }
                }
            }
            Some(GotoPlan { new_uris, copies })
        },
    }
}

/// Write the planned URIs back into the response once the copies are done.
/// A response that can no longer be rewritten (it changed shape, or a
/// planned URI is not valid text) is an error, and is not forwarded.
pub fn finish_binding(msg: &Vec<u8>, new_uris: &Vec<Option<Vec<u8>>>) -> (r: Result<
    Vec<u8>,
    MessageError,
>)
    ensures
        match set_result_uris_of(msg@, new_uris.deep_view()) {
            Some(out) => r matches Ok(v) && v@ == out,
            None => r is Err,
        },
{
    match set_result_uris(msg.as_slice(), new_uris) {
        Some(out) => Ok(out),
        None => MessageError::err(),
    }
}

/// Round-trip transparency, end to end: a body that mentions neither
/// workspace prefix and is not an `initialize` request passes through
/// either direction's byte transformation unchanged — and the process-id
/// stage leaves it alone too, whatever state the interceptor is in.
pub proof fn lemma_pipeline_transparency(
    cfg: ProxyConfig,
    h: PidHandler,
    b: Seq<u8>,
    root_patched: bool,
)
    requires
        !contains_seq(b, cfg.local_path@),
        !contains_seq(b, cfg.docker_internal_path@),
        !contains_seq(b, init_pattern()),
    ensures
        pid_take_spec(h, b) == (h, b, false),
        client_stage_spec(cfg, b, root_patched) == b,
        server_stage_spec(cfg, b) == b,
{
    crate::rewrite::lemma_round_trip_transparency(b, cfg.local_path@, cfg.docker_internal_path@);
}

} // verus!
