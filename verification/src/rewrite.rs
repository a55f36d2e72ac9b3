//! Byte-level URI rewriting between the host and the container workspace
//! roots, and the `initialize` root patch.
//!
//! The rewrite deliberately works on the raw JSON bytes: a literal
//! substitution of one configured prefix by the other survives unknown LSP
//! payload shapes without any schema knowledge.

use vstd::prelude::*;
use crate::config::ProxyConfig;
use crate::search::{
    contains_seq, first_match, first_match_from, invertible, lemma_first_match_from_props,
    lemma_no_overlap_invertible, lemma_replace_absent, lemma_replace_inversion, no_self_overlap,
    replace_all, replace_seq, find_from, find_sub,
};
use crate::text::{ascii_bytes, concat_bytes, str_bytes, subrange_bytes};
use crate::types::Pair;

verus! {

/// The rewrite applied to one message body: every occurrence of the
/// source-side prefix becomes the destination-side prefix; an empty prefix
/// (no container in use) leaves the body alone.
pub open spec fn redirect_spec(msg: Seq<u8>, from_path: Seq<u8>, to_path: Seq<u8>) -> Seq<u8> {
    if from_path.len() == 0 {
        msg
    } else {
        replace_seq(msg, from_path, to_path)
    }
}

/// The source-side prefix of a direction.
pub open spec fn direction_from(config: ProxyConfig, from: Pair) -> Seq<u8> {
    match from {
        Pair::Client => config.local_path@,
        Pair::Server => config.docker_internal_path@,
    }
}

/// The destination-side prefix of a direction.
pub open spec fn direction_to(config: ProxyConfig, from: Pair) -> Seq<u8> {
    match from {
        Pair::Client => config.docker_internal_path@,
        Pair::Server => config.local_path@,
    }
}

/// Redirect the paths in a message from the sender's world to the
/// receiver's: client-to-server turns host paths into container paths,
/// server-to-client the reverse.
pub fn redirect_uri(msg: &mut Vec<u8>, from: &Pair, config: &ProxyConfig)
    ensures
        final(msg)@ == redirect_spec(
            old(msg)@,
            direction_from(*config, *from),
            direction_to(*config, *from),
        ),
{
    let (from_path, to_path): (&Vec<u8>, &Vec<u8>) = match from {
        Pair::Client => (&config.local_path, &config.docker_internal_path),
        Pair::Server => (&config.docker_internal_path, &config.local_path),
    };
    if from_path.len() == 0 {
        return ;
    }
    let replaced = replace_all(msg.as_slice(), from_path.as_slice(), to_path.as_slice());
    *msg = replaced;
}

/// Round-trip transparency: a body mentioning neither workspace prefix
/// passes through the rewrite unchanged, in both directions.
pub proof fn lemma_round_trip_transparency(body: Seq<u8>, local: Seq<u8>, docker: Seq<u8>)
    requires
        !contains_seq(body, local),
        !contains_seq(body, docker),
    ensures
        redirect_spec(body, local, docker) == body,
        redirect_spec(body, docker, local) == body,
{
    if local.len() > 0 {
        lemma_replace_absent(body, local, docker);
    }
    if docker.len() > 0 {
        lemma_replace_absent(body, docker, local);
    }
}

/// Path inversion: the client-to-server rewrite followed by the
/// server-to-client rewrite returns the original body whenever the rewrite
/// is invertible — at each step the reverse scan finds the inserted copy of
/// the container prefix and nothing else (see [`invertible`]). In
/// particular, neither prefix may be a substring of the other.
pub proof fn lemma_redirect_inversion(body: Seq<u8>, local: Seq<u8>, docker: Seq<u8>)
    requires
        local.len() > 0,
        docker.len() > 0,
        invertible(body, local, docker),
    ensures
        redirect_spec(redirect_spec(body, local, docker), docker, local) == body,
{
    lemma_replace_inversion(body, local, docker);
}

/// Path inversion under plain conditions: when the body does not already
/// mention the container prefix and that prefix cannot overlap itself, the
/// client-to-server rewrite followed by the server-to-client rewrite
/// returns the original body.
pub proof fn lemma_path_inversion(body: Seq<u8>, local: Seq<u8>, docker: Seq<u8>)
    requires
        local.len() > 0,
        docker.len() > 0,
        !contains_seq(body, docker),
        no_self_overlap(docker),
    ensures
        redirect_spec(redirect_spec(body, local, docker), docker, local) == body,
{
    lemma_no_overlap_invertible(body, local, docker);
    lemma_redirect_inversion(body, local, docker);
}

/// The key before a root URI value in an `initialize` request.
pub open spec fn root_uri_key() -> Seq<u8> {
    ascii_bytes("\"rootUri\":\""@)
}

/// The key before a root path value in an `initialize` request.
pub open spec fn root_path_key() -> Seq<u8> {
    ascii_bytes("\"rootPath\":\""@)
}

/// The key opening the workspace folder list in an `initialize` request.
pub open spec fn workspace_folders_key() -> Seq<u8> {
    ascii_bytes("\"workspaceFolders\":["@)
}

/// The key before a URI value inside a workspace folder entry.
pub open spec fn uri_key() -> Seq<u8> {
    ascii_bytes("\"uri\":\""@)
}

/// `msg` with the quoted value after the first occurrence of `key` replaced
/// by `repl`; unchanged when the key or the closing quote is missing.
pub open spec fn splice_after_key(msg: Seq<u8>, key: Seq<u8>, repl: Seq<u8>) -> Seq<u8> {
    match first_match(msg, key) {
        None => msg,
        Some(p) => {
            let beg = p + key.len() as int;
            match first_match_from(msg, seq![34u8], beg) {
                None => msg,
                Some(q) => msg.subrange(0, beg) + repl + msg.skip(q),
            }
        },
    }
}

/// Replace the quoted value after the first `key` by `repl`, as executable
/// code.
fn splice_value(msg: &Vec<u8>, key: &Vec<u8>, repl: &Vec<u8>) -> (r: Vec<u8>)
    ensures
        r@ == splice_after_key(msg@, key@, repl@),
{
    let mut quote: Vec<u8> = Vec::new();
    quote.push(34u8);
    proof {
        assert(quote@ =~= seq![34u8]);
    }
    let n = msg.len();
    match find_sub(msg.as_slice(), key.as_slice()) {
        None => msg.clone(),
        Some(p) => {
            proof {
                lemma_first_match_from_props(msg@, key@, 0);
            }
            let beg = p + key.len();
            match find_from(msg.as_slice(), quote.as_slice(), beg) {
                None => msg.clone(),
                Some(q) => {
                    proof {
                        lemma_first_match_from_props(msg@, quote@, beg as int);
                    }
                    let head = subrange_bytes(msg.as_slice(), 0, beg);
                    let tail = subrange_bytes(msg.as_slice(), q, msg.len());
                    let front = concat_bytes(head.as_slice(), repl.as_slice());
                    let out = concat_bytes(front.as_slice(), tail.as_slice());
                    proof {
                        assert(msg@.subrange(q as int, msg@.len() as int) =~= msg@.skip(q as int));
                        assert(out@ =~= msg@.subrange(0, beg as int) + repl@ + msg@.skip(q as int));
                    }
                    out
                },
            }
        },
    }
}


/// A region with the quoted value after every `"uri":"` key replaced by
/// `repl`, scanning left to right.
pub open spec fn patch_uris_spec(s: Seq<u8>, repl: Seq<u8>) -> Seq<u8>
    decreases s.len(),
    via patch_uris_spec_decreases
{
    match first_match(s, uri_key()) {
        None => s,
        Some(p) => {
            let beg = p + uri_key().len() as int;
            match first_match_from(s, seq![34u8], beg) {
                None => s,
                Some(q) => s.subrange(0, beg) + repl + patch_uris_spec(s.skip(q), repl),
            }
        },
    }
}

#[via_fn]
proof fn patch_uris_spec_decreases(s: Seq<u8>, repl: Seq<u8>) {
    reveal_strlit("\"uri\":\"");
    lemma_first_match_from_props(s, uri_key(), 0);
    match first_match(s, uri_key()) {
        None => {},
        Some(p) => {
            lemma_first_match_from_props(s, seq![34u8], p + uri_key().len() as int);
        },
    }
}

/// Replace every workspace-folder URI value in `s` by `repl`, as executable
/// code.
fn patch_uris(s: &[u8], repl: &[u8]) -> (r: Vec<u8>)
    ensures
        r@ == patch_uris_spec(s@, repl@),
{
    proof {
        reveal_strlit("\"uri\":\"");
    }
    let key = str_bytes("\"uri\":\"");
    let mut quote: Vec<u8> = Vec::new();
    quote.push(34u8);
    proof {
        assert(quote@ =~= seq![34u8]);
        assert(key@ == uri_key());
    }
    let n = s.len();
    let mut out: Vec<u8> = Vec::new();
    let mut k: usize = 0;
    proof {
        assert(s@.skip(0) =~= s@);
        assert(out@ + patch_uris_spec(s@, repl@) =~= patch_uris_spec(s@, repl@));
    }
    loop
        invariant
            k <= s@.len(),
            s@.len() == n,
            key@ == uri_key(),
            quote@ == seq![34u8],
            key@.len() == 7,
            patch_uris_spec(s@, repl@) == out@ + patch_uris_spec(s@.skip(k as int), repl@),
        decreases s@.len() - k,
    {
        proof {
            crate::search::lemma_first_match_skip(s@, key@, k as int);
        }
        match find_from(s, key.as_slice(), k) {
            None => {
                let rest = subrange_bytes(s, k, n);
                let r = concat_bytes(out.as_slice(), rest.as_slice());
                proof {
                    assert(s@.subrange(k as int, n as int) =~= s@.skip(k as int));
                    assert(r@ =~= out@ + s@.skip(k as int));
                }
                return r;
            },
            Some(p) => {
                proof {
                    lemma_first_match_from_props(s@, key@, k as int);
                }
                let beg = p + key.len();
                proof {
                    crate::search::lemma_first_match_skip_offset(
                        s@,
                        quote@,
                        k as int,
                        beg - k as int,
                    );
                }
                match find_from(s, quote.as_slice(), beg) {
                    None => {
                        let rest = subrange_bytes(s, k, n);
                        let r = concat_bytes(out.as_slice(), rest.as_slice());
                        proof {
                            assert(s@.subrange(k as int, n as int) =~= s@.skip(k as int));
                            assert(r@ =~= out@ + s@.skip(k as int));
                        }
                        return r;
                    },
                    Some(q) => {
                        proof {
                            lemma_first_match_from_props(s@, quote@, beg as int);
                        }
                        let ghost sk = s@.skip(k as int);
                        proof {
                            assert(first_match(sk, uri_key()) == Some(p - k));
                            assert(first_match_from(sk, seq![34u8], p - k + uri_key().len())
                                == Some(q - k));
                            assert(patch_uris_spec(sk, repl@) == sk.subrange(0, beg - k) + repl@
                                + patch_uris_spec(sk.skip(q - k), repl@));
                            assert(sk.subrange(0, beg - k) =~= s@.subrange(k as int, beg as int));
                            assert(sk.skip(q - k) =~= s@.skip(q as int));
                        }
                        let mid = subrange_bytes(s, k, beg);
                        let mut grown = concat_bytes(out.as_slice(), mid.as_slice());
                        let grown2 = concat_bytes(grown.as_slice(), repl);
                        proof {
                            assert(grown2@ =~= out@ + s@.subrange(k as int, beg as int) + repl@);
                        }
                        out = grown2;
                        k = q;
                    },
                }
            },
        }
    }
}

/// The whole `initialize` root patch: the values of `rootUri` and
/// `rootPath` each become the container root URI, and so does every `uri`
/// inside the workspace folder list.
pub open spec fn ensure_root_spec(msg: Seq<u8>, docker_uri: Seq<u8>) -> Seq<u8> {
    let m1 = splice_after_key(msg, root_uri_key(), docker_uri);
    let m2 = splice_after_key(m1, root_path_key(), docker_uri);
    match first_match(m2, workspace_folders_key()) {
        None => m2,
        Some(p) => {
            let beg = p + workspace_folders_key().len() as int;
            match first_match_from(m2, seq![93u8], beg) {
                None => m2,
                Some(e) => m2.subrange(0, beg) + patch_uris_spec(m2.subrange(beg, e), docker_uri)
                    + m2.skip(e),
            }
        },
    }
}

/// The container workspace root as a file URI.
pub open spec fn container_root_uri(config: ProxyConfig) -> Seq<u8> {
    ascii_bytes("file://"@) + config.docker_internal_path@
}

/// On an `initialize` request, force the workspace root the server sees to
/// the container-internal one, whatever the editor sent: the server must
/// find the root inside the container.
pub fn ensure_root(msg: &mut Vec<u8>, config: &ProxyConfig)
    ensures
        final(msg)@ == ensure_root_spec(old(msg)@, container_root_uri(*config)),
{
    proof {
        reveal_strlit("file://");
        reveal_strlit("\"rootUri\":\"");
        reveal_strlit("\"rootPath\":\"");
        reveal_strlit("\"workspaceFolders\":[");
    }
    let docker_uri = concat_bytes(
        str_bytes("file://").as_slice(),
        config.docker_internal_path.as_slice(),
    );
    let uri_k = str_bytes("\"rootUri\":\"");
    let path_k = str_bytes("\"rootPath\":\"");
    let ws_k = str_bytes("\"workspaceFolders\":[");
    let m1 = splice_value(msg, &uri_k, &docker_uri);
    let m2 = splice_value(&m1, &path_k, &docker_uri);
    let mut bracket: Vec<u8> = Vec::new();
    bracket.push(93u8);
    proof {
        assert(bracket@ =~= seq![93u8]);
    }
    let n = m2.len();
    match find_sub(m2.as_slice(), ws_k.as_slice()) {
        None => {
            *msg = m2;
        },
        Some(p) => {
            proof {
                lemma_first_match_from_props(m2@, ws_k@, 0);
            }
            let beg = p + ws_k.len();
            match find_from(m2.as_slice(), bracket.as_slice(), beg) {
                None => {
                    *msg = m2;
                },
                Some(e) => {
                    proof {
                        lemma_first_match_from_props(m2@, bracket@, beg as int);
                    }
                    let region = subrange_bytes(m2.as_slice(), beg, e);
                    let patched = patch_uris(region.as_slice(), docker_uri.as_slice());
                    let head = subrange_bytes(m2.as_slice(), 0, beg);
                    let tail = subrange_bytes(m2.as_slice(), e, n);
                    let front = concat_bytes(head.as_slice(), patched.as_slice());
                    let out = concat_bytes(front.as_slice(), tail.as_slice());
                    proof {
                        assert(m2@.subrange(e as int, n as int) =~= m2@.skip(e as int));
                        assert(out@ =~= m2@.subrange(0, beg as int) + patch_uris_spec(
                            m2@.subrange(beg as int, e as int),
                            docker_uri@,
                        ) + m2@.skip(e as int));
                    }
                    *msg = out;
                },
            }
        },
    }
}

} // verus!

