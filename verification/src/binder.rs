//! The library binder: goto responses that point at container-only files
//! get their URIs redirected to a host-side temp mirror of those files.
//!
//! The library decides, for each URI of a goto response, whether and where
//! to mirror the file and what the rewritten URI is; performing the copy
//! (a `docker exec ... cat` whose command line [`copy_command`] fixes) and
//! the existence check that skips copies of already-mirrored files are the
//! caller's outside work.

use vstd::prelude::*;
use crate::search::{contains_seq, contains_sub};
use crate::text::{
    ascii_bytes, concat_bytes, is_prefix, last_index_of, rfind_byte, starts_with, str_bytes,
    subrange_bytes, to_vec_bytes, lemma_last_index_of_props,
};

verus! {

/// The scheme prefix of a file URI.
pub open spec fn file_prefix() -> Seq<u8> {
    ascii_bytes("file://"@)
}

/// The URI with a leading `file://` removed.
pub open spec fn strip_file_prefix(uri: Seq<u8>) -> Seq<u8> {
    if is_prefix(uri, file_prefix()) {
        uri.skip(file_prefix().len() as int)
    } else {
        uri
    }
}

/// The path with one leading slash removed.
pub open spec fn strip_leading_slash(p: Seq<u8>) -> Seq<u8> {
    if p.len() > 0 && p[0] == 47 {
        p.skip(1)
    } else {
        p
    }
}

/// Where a goto target is materialized: a path already under the temp
/// mirror is used as it is (the editor may ask about a mirrored file);
/// anything else lands under the mirror root, keyed by its own absolute
/// path.
pub open spec fn bind_target_spec(uri: Seq<u8>, temp_root: Seq<u8>) -> Seq<u8> {
    let path = strip_file_prefix(uri);
    if contains_seq(path, temp_root) {
        path
    } else {
        temp_root + seq![47u8] + strip_leading_slash(path)
    }
}

/// The rewritten URI of a bound goto target.
pub open spec fn bound_uri_spec(uri: Seq<u8>, temp_root: Seq<u8>) -> Seq<u8> {
    file_prefix() + bind_target_spec(uri, temp_root)
}

/// The mirror location of a goto target, as executable code.
pub fn bind_target(uri: &[u8], temp_root: &[u8]) -> (r: Vec<u8>)
    ensures
        r@ == bind_target_spec(uri@, temp_root@),
{
    proof {
        reveal_strlit("file://");
    }
    let fp = str_bytes("file://");
    let path: Vec<u8> = if starts_with(uri, fp.as_slice()) {
        let p = subrange_bytes(uri, 7, uri.len());
        proof {
            assert(p@ =~= uri@.skip(7));
        }
        p
    } else {
        to_vec_bytes(uri)
    };
    if contains_sub(path.as_slice(), temp_root) {
        return path;
    }
    let rel: Vec<u8> = if path.len() > 0 && path[0] == 47 {
        let p = subrange_bytes(path.as_slice(), 1, path.len());
        proof {
            assert(p@ =~= path@.skip(1));
        }
        p
    } else {
        to_vec_bytes(path.as_slice())
    };
    let mut root = to_vec_bytes(temp_root);
    root.push(47u8);
    let out = concat_bytes(root.as_slice(), rel.as_slice());
    proof {
        assert(out@ =~= temp_root@ + seq![47u8] + strip_leading_slash(strip_file_prefix(uri@)));
    }
    out
}

/// One file to mirror: its container-side path and the host-side mirror
/// path. The caller creates the parent directory, and copies only when the
/// destination does not exist yet.
pub struct CopyTask {
    pub src: Vec<u8>,
    pub dest: Vec<u8>,
}

/// Which URIs of a goto response are rewritten: those that do not mention
/// the host workspace path.
pub open spec fn uri_needs_binding(uri: Seq<u8>, local_path: Seq<u8>) -> bool {
    !contains_seq(uri, local_path)
}

/// The planned replacement for one optional URI.
pub open spec fn plan_uri_spec(u: Option<Vec<u8>>, local_path: Seq<u8>, temp_root: Seq<u8>) -> Option<
    Seq<u8>,
> {
    match u {
        None => None,
        Some(uri) => if uri_needs_binding(uri@, local_path) {
            Some(bound_uri_spec(uri@, temp_root))
        } else {
            None
        },
    }
}

/// Plan the binding of a goto response's URIs: for each URI that lies
/// outside the host workspace, the rewritten URI, and the copy that mirrors
/// the file, in response order.
pub fn plan_goto(uris: &Vec<Option<Vec<u8>>>, local_path: &[u8], temp_root: &[u8]) -> (r: (
    Vec<Option<Vec<u8>>>,
    Vec<CopyTask>,
))
    ensures
        r.0@.len() == uris@.len(),
        forall|i: int| 0 <= i < uris@.len() ==> (match #[trigger] r.0@[i] {
            Some(nu) => plan_uri_spec(uris@[i], local_path@, temp_root@) == Some(nu@),
            None => plan_uri_spec(uris@[i], local_path@, temp_root@) is None,
        }),
        forall|j: int| 0 <= j < r.1@.len() ==> (#[trigger] r.1@[j].src@, r.1@[j].dest@) == (
            strip_file_prefix(copied_uris(uris@, local_path@)[j]),
            bind_target_spec(copied_uris(uris@, local_path@)[j], temp_root@),
        ),
        r.1@.len() == copied_uris(uris@, local_path@).len(),
{
    let mut out: Vec<Option<Vec<u8>>> = Vec::new();
    let mut copies: Vec<CopyTask> = Vec::new();
    let mut i: usize = 0;
    proof {
        reveal_strlit("file://");
        assert(copied_uris(uris@.take(0), local_path@) =~= Seq::<Seq<u8>>::empty());
    }
    while i < uris.len()
        invariant
            i <= uris@.len(),
            uris@.len() == uris.len(),
            out@.len() == i,
            forall|x: int| 0 <= x < i ==> (match #[trigger] out@[x] {
                Some(nu) => plan_uri_spec(uris@[x], local_path@, temp_root@) == Some(nu@),
                None => plan_uri_spec(uris@[x], local_path@, temp_root@) is None,
            }),
            copies@.len() == copied_uris(uris@.take(i as int), local_path@).len(),
            forall|j: int| 0 <= j < copies@.len() ==> (
            #[trigger] copies@[j].src@,
            copies@[j].dest@,
            ) == (
                strip_file_prefix(copied_uris(uris@.take(i as int), local_path@)[j]),
                bind_target_spec(copied_uris(uris@.take(i as int), local_path@)[j], temp_root@),
            ),
        decreases uris@.len() - i,
    {
        let ghost prev = copied_uris(uris@.take(i as int), local_path@);
        proof {
            reveal_strlit("file://");
            assert(uris@.take(i + 1).drop_last() =~= uris@.take(i as int));
            assert(uris@.take(i + 1).last() == uris@[i as int]);
        }
        match &uris[i] {
            None => {
                out.push(None);
                proof {
                    assert(copied_uris(uris@.take(i + 1), local_path@) =~= prev);
                }
            },
            Some(uri) => {
                if contains_sub(uri.as_slice(), local_path) {
                    out.push(None);
                    proof {
                        assert(uris@[i as int] matches Some(u) && !uri_needs_binding(
                            u@,
                            local_path@,
                        ));
                        assert(copied_uris(uris@.take(i + 1), local_path@) =~= prev);
                    }
                } else {
                    let target = bind_target(uri.as_slice(), temp_root);
                    let fp = str_bytes("file://");
                    let new_uri = concat_bytes(fp.as_slice(), target.as_slice());
                    proof {
                        assert(new_uri@ =~= bound_uri_spec(uri@, temp_root@));
                    }
                    out.push(Some(new_uri));
                    let src: Vec<u8> = if starts_with(uri.as_slice(), fp.as_slice()) {
                        let p = subrange_bytes(uri.as_slice(), 7, uri.len());
                        proof {
                            assert(p@ =~= uri@.skip(7));
                        }
                        p
                    } else {
                        to_vec_bytes(uri.as_slice())
                    };
                    copies.push(CopyTask { src, dest: target });
                    proof {
                        assert(copied_uris(uris@.take(i + 1), local_path@) =~= prev.push(uri@));
                    }
                }
            },
        }
        i = i + 1;
    }
    proof {
        assert(uris@.take(uris@.len() as int) =~= uris@);
    }
    (out, copies)
}

/// The URIs that get mirrored, in response order.
pub open spec fn copied_uris(uris: Seq<Option<Vec<u8>>>, local_path: Seq<u8>) -> Seq<Seq<u8>>
    decreases uris.len(),
{
    if uris.len() == 0 {
        Seq::empty()
    } else {
        copied_uris(uris.drop_last(), local_path) + (match uris.last() {
            Some(u) => if uri_needs_binding(u@, local_path) {
                seq![u@]
            } else {
                Seq::empty()
            },
            None => Seq::empty(),
        })
    }
}

/// The command line that mirrors one file out of the container:
/// `docker exec <container> cat <path>`, its stdout captured by the caller.
pub fn copy_command(container: &[u8], path: &[u8]) -> (r: Vec<Vec<u8>>)
    ensures
        r@.len() == 5,
        r@[0]@ == ascii_bytes("docker"@),
        r@[1]@ == ascii_bytes("exec"@),
        r@[2]@ == container@,
        r@[3]@ == ascii_bytes("cat"@),
        r@[4]@ == path@,
{
    proof {
        reveal_strlit("docker");
        reveal_strlit("exec");
        reveal_strlit("cat");
    }
    let mut r: Vec<Vec<u8>> = Vec::new();
    r.push(str_bytes("docker"));
    r.push(str_bytes("exec"));
    r.push(to_vec_bytes(container));
    r.push(str_bytes("cat"));
    r.push(to_vec_bytes(path));
    r
}

/// The directory that must exist before a mirror file is written: the path
/// up to its last slash.
pub fn path_parent(p: &[u8]) -> (r: Option<Vec<u8>>)
    ensures
        match last_index_of(p@, 47u8) {
            None => r is None,
            Some(i) => r matches Some(v) && v@ == p@.take(i),
        },
{
    proof {
        lemma_last_index_of_props(p@, 47u8);
    }
    match rfind_byte(p, 47u8) {
        None => None,
        Some(i) => {
            let v = subrange_bytes(p, 0, i);
            proof {
                assert(v@ =~= p@.take(i as int));
            }
            Some(v)
        },
    }
}

/// Binder idempotence: binding an already-bound URI is a no-op — the
/// rewritten URI binds to itself, so a repeated goto against the same file
/// yields the same URI and a copy task with the same destination, which the
/// caller's existence check then skips.
pub proof fn lemma_binder_idempotent(uri: Seq<u8>, temp_root: Seq<u8>)
    requires
        temp_root.len() > 0,
    ensures
        bound_uri_spec(bound_uri_spec(uri, temp_root), temp_root) == bound_uri_spec(uri, temp_root),
        bind_target_spec(bound_uri_spec(uri, temp_root), temp_root) == bind_target_spec(
            uri,
            temp_root,
        ),
{
    let t = bind_target_spec(uri, temp_root);
    let b = bound_uri_spec(uri, temp_root);
    assert(contains_seq(t, temp_root)) by {
        let path = strip_file_prefix(uri);
        if contains_seq(path, temp_root) {
        } else {
            assert(t.subrange(0, temp_root.len() as int) =~= temp_root);
            assert(crate::search::match_at(t, temp_root, 0));
        }
    }
    assert(is_prefix(b, file_prefix())) by {
        assert(b.subrange(0, file_prefix().len() as int) =~= file_prefix());
    }
    assert(strip_file_prefix(b) =~= t);
}

} // verus!
