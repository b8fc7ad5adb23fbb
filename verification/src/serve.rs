//! The static-file middleware's decisions. It applies only to GET requests
//! with no registered route; the requested path is sanitized — `.`, `..` and
//! empty segments dropped — before it is joined under the configured root, so
//! a request cannot climb out of the root. Whether the candidate file exists
//! only the application can see; it probes the filesystem between `resolve`
//! and `register_file`.

use vstd::prelude::*;
use crate::method::Method;
use crate::path::Path;
use crate::request::Request;
use crate::routes::{Route, Router};
use crate::text::{find_char, first_ix, str_eq};

verus! {

/// The `'/'`-separated segments of a path, empties included.
pub open spec fn spec_segments(s: Seq<char>) -> Seq<Seq<char>>
    decreases s.len(),
{
    let i = first_ix(s, '/');
    if 0 <= i && i < s.len() {
        seq![s.take(i)] + spec_segments(s.skip(i + 1))
    } else {
        seq![s]
    }
}

/// A segment that survives sanitizing: not `.`, not `..`, not empty.
pub open spec fn keep_segment(c: Seq<char>) -> bool {
    c.len() > 0 && c != "."@ && c != ".."@
}

/// The segments that survive, in order.
pub open spec fn sanitize_segs(segs: Seq<Seq<char>>) -> Seq<Seq<char>>
    decreases segs.len(),
{
    if segs.len() == 0 {
        Seq::empty()
    } else if keep_segment(segs.last()) {
        sanitize_segs(segs.drop_last()).push(segs.last())
    } else {
        sanitize_segs(segs.drop_last())
    }
}

/// A path's sanitized segments.
pub open spec fn spec_sanitized(s: Seq<char>) -> Seq<Seq<char>> {
    sanitize_segs(spec_segments(s))
}

/// Segments rejoined with `'/'` between them.
pub open spec fn join_slash(segs: Seq<Seq<char>>) -> Seq<char>
    decreases segs.len(),
{
    if segs.len() == 0 {
        Seq::empty()
    } else if segs.len() == 1 {
        segs[0]
    } else {
        join_slash(segs.drop_last()) + seq!['/'] + segs.last()
    }
}

pub proof fn lemma_sanitize_keeps_only_safe(segs: Seq<Seq<char>>)
    ensures
        forall|i: int|
            0 <= i < sanitize_segs(segs).len() ==> keep_segment(#[trigger] sanitize_segs(segs)[i]),
    decreases segs.len(),
{
    if segs.len() > 0 {
        lemma_sanitize_keeps_only_safe(segs.drop_last());
        let pre = sanitize_segs(segs.drop_last());
        assert forall|i: int| 0 <= i < sanitize_segs(segs).len() implies keep_segment(
            #[trigger] sanitize_segs(segs)[i],
        ) by {
            if keep_segment(segs.last()) {
                assert(sanitize_segs(segs) == pre.push(segs.last()));
                if i < pre.len() {
                    assert(sanitize_segs(segs)[i] == pre[i]);
                    assert(keep_segment(pre[i]));
                } else {
                    assert(sanitize_segs(segs)[i] == segs.last());
                }
            } else {
                assert(sanitize_segs(segs)[i] == pre[i]);
                assert(keep_segment(pre[i]));
            }
        }
    }
}

/// Law (traversal defense): no sanitized path holds a `..`, a `.` or an empty
/// segment, so joining it under a root directory cannot escape the root.
pub proof fn lemma_sanitized_no_traversal(s: Seq<char>)
    ensures
        forall|i: int|
            0 <= i < spec_sanitized(s).len() ==> (#[trigger] spec_sanitized(s)[i]) != ".."@
                && spec_sanitized(s)[i] != "."@ && spec_sanitized(s)[i].len() > 0,
{
    lemma_sanitize_keeps_only_safe(spec_segments(s));
    assert forall|i: int| 0 <= i < spec_sanitized(s).len() implies (#[trigger] spec_sanitized(
        s,
    )[i]) != ".."@ && spec_sanitized(s)[i] != "."@ && spec_sanitized(s)[i].len() > 0 by {
        assert(keep_segment(sanitize_segs(spec_segments(s))[i]));
    }
}

/// Split a path into its `'/'`-separated segments.
fn split_segments(s: &str) -> (segs: Vec<String>)
    ensures
        segs@.map_values(|t: String| t@) == spec_segments(s@),
    decreases s@.len(),
{
    let len = s.unicode_len();
    let i = find_char(s, '/');
    if i == len {
        let mut segs: Vec<String> = Vec::new();
        segs.push(String::from_str(s));
        proof {
            assert(spec_segments(s@) =~= seq![s@]);
            assert(segs@.map_values(|t: String| t@) =~= seq![s@]);
        }
        segs
    } else {
        let head = s.substring_char(0, i);
        let tail = s.substring_char(i + 1, len);
        proof {
            assert(tail@ =~= s@.skip(i + 1));
            assert(head@ =~= s@.take(i as int));
        }
        let mut rest = split_segments(tail);
        let mut segs: Vec<String> = Vec::new();
        segs.push(String::from_str(head));
        let ghost rest_views = rest@.map_values(|t: String| t@);
        segs.append(&mut rest);
        proof {
            assert(segs@.map_values(|t: String| t@) =~= seq![head@] + rest_views);
        }
        segs
    }
}

/// Serves files under a root directory for otherwise-unrouted GET requests.
pub struct ServeStatic {
    root: String,
}

impl ServeStatic {
    /// The configured root, itself already sanitized.
    pub closed spec fn root_view(&self) -> Seq<char> {
        self.root@
    }

    /// Drop `.`, `..` and empty segments and rejoin what is left with `'/'`.
    pub fn sanitize_path(path: &str) -> (r: Path)
        ensures
            r@ == join_slash(spec_sanitized(path@)),
    {
        let segs = split_segments(path);
        let ghost views = segs@.map_values(|t: String| t@);
        let mut out = String::new();
        let mut any: bool = false;
        let n = segs.len();
        let mut i: usize = 0;
        while i < n
            invariant
                i <= n,
                n == segs@.len(),
                views == segs@.map_values(|t: String| t@),
                views == spec_segments(path@),
                any <==> sanitize_segs(views.take(i as int)).len() > 0,
                out@ == join_slash(sanitize_segs(views.take(i as int))),
            decreases n - i,
        {
            let seg = &segs[i];
            let keep = seg.as_str().unicode_len() > 0 && !str_eq(seg.as_str(), ".") && !str_eq(
                seg.as_str(),
                "..",
            );
            proof {
                assert(views.take(i + 1).drop_last() =~= views.take(i as int));
                assert(views.take(i + 1).last() == views[i as int]);
                assert(seg@ == views[i as int]);
            }
            if keep {
                if any {
                    out.append("/");
                    proof {
                        reveal_strlit("/");
                        assert(("/")@ =~= seq!['/']);
                    }
                }
                out.append(seg.as_str());
                any = true;
                proof {
                    let kept = sanitize_segs(views.take(i as int));
                    assert(sanitize_segs(views.take(i + 1)) =~= kept.push(views[i as int]));
                    if kept.len() == 0 {
                        assert(join_slash(kept.push(views[i as int])) == views[i as int]);
                    } else {
                        assert(kept.push(views[i as int]).drop_last() =~= kept);
                        assert(kept.push(views[i as int]).last() == views[i as int]);
                    }
                }
            } else {
                proof {
                    assert(sanitize_segs(views.take(i + 1)) =~= sanitize_segs(
                        views.take(i as int),
                    ));
                }
            }
            i = i + 1;
        }
        proof {
            assert(views.take(n as int) =~= views);
        }
        Path::new(out.as_str())
    }

    /// Configure with a root directory; the root itself is sanitized once.
    pub fn dir(root: &str) -> (r: Self)
        ensures
            r.root_view() == join_slash(spec_sanitized(root@)),
    {
        let p = Self::sanitize_path(root);
        ServeStatic { root: String::from_str(p.to_str()) }
    }

    /// The file that would serve a request path: sanitized, under the root.
    pub fn candidate(&self, req_path: &str) -> (r: String)
        ensures
            r@ == self.root_view() + "/"@ + join_slash(spec_sanitized(req_path@)),
    {
        let sanitized = Self::sanitize_path(req_path);
        let joined = Path::new(self.root.as_str()).join(sanitized.to_str());
        String::from_str(joined.to_str())
    }

    /// Decide whether this middleware applies: a GET request whose path has no
    /// registered route yet. `Some` carries the candidate file to probe.
    pub fn resolve<H: Copy>(&self, routes: &Router<H>, req: &Request) -> (r: Option<String>)
        requires
            routes.wf(),
        ensures
            match r {
                Some(c) => req.method == Some(Method::Get) && (req.path matches Some(p)
                    && !routes.map_of(Method::Get).contains_key(p@) && c@ == self.root_view()
                    + "/"@ + join_slash(spec_sanitized(p@))),
                None => !(req.method == Some(Method::Get) && (req.path matches Some(p)
                    && !routes.map_of(Method::Get).contains_key(p@))),
            },
    {
        let applies: bool = match &req.method {
            Some(Method::Get) => true,
            _ => false,
        };
        if !applies {
            return None;
        }
        match &req.path {
            None => None,
            Some(p) => {
                match routes.get(&Method::Get, p.as_str()) {
                    Some(_) => None,
                    None => Some(self.candidate(p.as_str())),
                }
            },
        }
    }

    /// Once the application has confirmed the candidate file exists: rewrite
    /// the request path to it and register the one-shot route that serves it.
    /// The route's key set grows by at most this one path, first write wins.
    pub fn register_file<H: Copy>(
        &self,
        routes: &mut Router<H>,
        req: &mut Request,
        candidate: &str,
        handler: H,
    )
        requires
            old(routes).wf(),
            old(req).wf(),
        ensures
            final(req).wf(),
            (final(req).path matches Some(p) && p@ == candidate@),
            final(req).method == old(req).method,
            final(req).version == old(req).version,
            final(req).headers == old(req).headers,
            final(req).body == old(req).body,
            final(routes).wf(),
            final(routes).fallback() == old(routes).fallback(),
            forall|m: Method|
                m != Method::Get ==> final(routes).map_of(m) == old(routes).map_of(m),
            ({
                let t0 = old(routes).map_of(Method::Get);
                let t1 = final(routes).map_of(Method::Get);
                &&& t0.contains_key(candidate@) ==> t1 == t0
                &&& !t0.contains_key(candidate@) ==> t1.contains_key(candidate@)
                    && t1[candidate@].callback == Some(handler) && t1[candidate@].method
                    == Method::Get && t1[candidate@].path@ == candidate@ && t1.remove(candidate@)
                    =~= t0
            }),
    {
        req.path = Some(String::from_str(candidate));
        let route = Route::new(candidate, Method::Get, handler);
        let ghost grt = route;
        routes.add(route);
        proof {
            let t0 = old(routes).map_of(Method::Get);
            if !t0.contains_key(candidate@) {
                assert(final(routes).map_of(Method::Get) == t0.insert(candidate@, grt));
                assert(final(routes).map_of(Method::Get).remove(candidate@) =~= t0);
            }
        }
    }
}

} // verus!
