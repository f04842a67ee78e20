//! Analysing the segments of a video: which stored results to reuse, how many segments
//! to work on at once, and the order of the results.
use vstd::prelude::*;

use crate::config::AppSettings;
use crate::models::{SourceVideo, VideoTaskState};
use crate::state_store::{is_fresh, segment_cache_usable};

verus! {

/// How many segments are worked on at once: the larger of the two concurrency limits.
pub fn analysis_width(settings: &AppSettings) -> (w: usize)
    ensures
        w == if settings.runtime.request_concurrency >= settings.runtime.preprocess_concurrency {
            settings.runtime.request_concurrency
        } else {
            settings.runtime.preprocess_concurrency
        },
{
    if settings.runtime.request_concurrency >= settings.runtime.preprocess_concurrency {
        settings.runtime.request_concurrency
    } else {
        settings.runtime.preprocess_concurrency
    }
}

/// Whether a stored analysis of a segment may stand in for a new request: never with
/// `force`, and otherwise only while the video's recorded status is fresh.
pub fn may_reuse_segment(
    force: bool,
    status: &Option<VideoTaskState>,
    video: &SourceVideo,
    fingerprint: &str,
) -> (b: bool)
    ensures
        b == (!force && (*status matches Some(s) && is_fresh(
            s.source_mtime_ms,
            s.config_fingerprint@,
            *video,
            fingerprint@,
        ))),
{
    !force && segment_cache_usable(status, video, fingerprint)
}

/// Some item of `results` is tagged `k`.
pub open spec fn has_tag<T>(results: Seq<(usize, T)>, k: int) -> bool {
    exists|i: int| 0 <= i < results.len() && (#[trigger] results[i]).0 == k
}

/// The tags of `results` are `0 .. results.len()`, each exactly once.
pub open spec fn tags_exact<T>(results: Seq<(usize, T)>) -> bool {
    &&& forall|i: int| 0 <= i < results.len() ==> (#[trigger] results[i]).0 < results.len()
    &&& forall|i: int, j: int|
        0 <= i < j < results.len() ==> (#[trigger] results[i]).0 != (#[trigger] results[j]).0
    &&& forall|k: int| 0 <= k < results.len() ==> #[trigger] has_tag(results, k)
}

/// The results put in the order of their tags: `Some` exactly when the tags are
/// `0 .. results.len()`, each once, and then the item tagged `k` stands at `k`.
pub fn order_by_index<T>(results: Vec<(usize, T)>) -> (r: Option<Vec<T>>)
    ensures
        r is Some <==> tags_exact(results@),
        r matches Some(v) ==> v@.len() == results@.len() && forall|i: int|
            0 <= i < results@.len() ==> v@[(#[trigger] results@[i]).0 as int]
                == results@[i].1,
{
    let ghost orig = results@;
    let n = results.len();
    let mut slots: Vec<Option<T>> = Vec::new();
    let mut k: usize = 0;
    while k < n
        invariant
            k <= n,
            slots@.len() == k,
            forall|j: int| 0 <= j < k ==> slots@[j] is None,
        decreases n - k,
    {
        slots.push(None);
        k = k + 1;
    }
    let mut rest = results;
    assert(orig.take(n as int) =~= orig);
    while rest.len() > 0
        invariant
            n == orig.len(),
            orig == results@,
            slots@.len() == n,
            rest@.len() <= n,
            rest@ == orig.take(rest@.len() as int),
            forall|i: int| rest@.len() <= i < n ==> (#[trigger] orig[i]).0 < n,
            forall|i: int, j: int|
                rest@.len() <= i < j < n ==> (#[trigger] orig[i]).0 != (#[trigger] orig[j]).0,
            forall|i: int|
                rest@.len() <= i < n ==> slots@[(#[trigger] orig[i]).0 as int] == Some(orig[i].1),
            forall|s: int|
                0 <= s < n && slots@[s] is Some ==> exists|i: int|
                    rest@.len() <= i < n && (#[trigger] orig[i]).0 == s,
        decreases rest@.len(),
    {
        let ghost m = rest@.len() - 1;
        assert(rest@[m] == orig[m]);
        let (tag, item) = rest.pop().unwrap();
        assert(orig[m] == (tag, item));
        if tag >= n {
            assert(!((orig[m]).0 < n));
            return None;
        }
        if slots[tag].is_some() {
            proof {
                let i = choose|i: int| rest@.len() + 1 <= i < n && (#[trigger] orig[i]).0 == tag;
                assert(orig[m].0 == orig[i].0);
            }
            return None;
        }
        let ghost before = slots@;
        slots.set(tag, Some(item));
        assert forall|s: int| 0 <= s < n && slots@[s] is Some implies exists|i: int|
            rest@.len() <= i < n && (#[trigger] orig[i]).0 == s by {
            if s == tag {
                assert(orig[m].0 == s);
            } else {
                assert(before[s] is Some);
            }
        }
        assert(rest@ =~= orig.take(rest@.len() as int));
    }
    let mut rev: Vec<T> = Vec::new();
    while slots.len() > 0
        invariant
            slots@.len() + rev@.len() == n,
            n == orig.len(),
            orig == results@,
            forall|i: int|
                0 <= i < n ==> (#[trigger] orig[i]).0 < n,
            forall|i: int, j: int|
                0 <= i < j < n ==> (#[trigger] orig[i]).0 != (#[trigger] orig[j]).0,
            forall|i: int|
                0 <= i < n && (orig[i].0 as int) < slots@.len() ==> slots@[(#[trigger] orig[i]).0 as int]
                    == Some(orig[i].1),
            forall|i: int|
                0 <= i < n && (orig[i].0 as int) >= slots@.len() ==> rev@[n - 1 - (#[trigger] orig[i]).0]
                    == orig[i].1,
            forall|s: int|
                0 <= s < slots@.len() && slots@[s] is Some ==> has_tag(orig, s),
            forall|s: int| slots@.len() <= s < n ==> #[trigger] has_tag(orig, s),
        decreases slots@.len(),
    {
        let ghost top = slots@.len() - 1;
        let ghost before = slots@;
        let ghost rev_before = rev@;
        match slots.pop().unwrap() {
            Some(item) => {
                assert(before[top] is Some);
                assert(has_tag(orig, top));
                let ghost w = choose|i: int| 0 <= i < n && (#[trigger] orig[i]).0 == top;
                assert(orig[w].0 == top);
                assert(item == orig[w].1);
                rev.push(item);
                assert forall|i: int|
                    0 <= i < n && (orig[i].0 as int) >= slots@.len() implies rev@[n - 1 - (
                    #[trigger] orig[i]).0] == orig[i].1 by {
                    if orig[i].0 as int == top {
                        if i != w {
                            if i < w {
                                assert(orig[i].0 != orig[w].0);
                            } else {
                                assert(orig[w].0 != orig[i].0);
                            }
                        }
                    } else {
                        assert(rev@[n - 1 - orig[i].0] == rev_before[n - 1 - orig[i].0]);
                    }
                }
                assert forall|s: int| slots@.len() <= s < n implies #[trigger] has_tag(orig, s) by {
                    if s == top {
                        assert(orig[w].0 == s);
                    }
                }
            },
            None => {
                assert(before[top] is None);
                assert(!tags_exact(orig)) by {
                    if tags_exact(orig) {
                        assert(has_tag(orig, top));
                        let i = choose|i: int| 0 <= i < n && (#[trigger] orig[i]).0 == top;
                        assert(orig[i].0 as int == top);
                        assert(before[orig[i].0 as int] == Some(orig[i].1));
                    }
                }
                return None;
            },
        }
    }
    let mut v: Vec<T> = Vec::new();
    while rev.len() > 0
        invariant
            v@.len() + rev@.len() == n,
            n == orig.len(),
            orig == results@,
            forall|i: int|
                0 <= i < n ==> (#[trigger] orig[i]).0 < n,
            forall|i: int|
                0 <= i < n && (orig[i].0 as int) < v@.len() ==> v@[(#[trigger] orig[i]).0 as int]
                    == orig[i].1,
            forall|i: int|
                0 <= i < n && (orig[i].0 as int) >= v@.len() ==> rev@[n - 1 - (#[trigger] orig[i]).0]
                    == orig[i].1,
        decreases rev@.len(),
    {
        let ghost rev_before = rev@;
        let ghost v_before = v@;
        let item = rev.pop().unwrap();
        v.push(item);
        assert forall|i: int|
            0 <= i < n && (orig[i].0 as int) >= v@.len() implies rev@[n - 1 - (
            #[trigger] orig[i]).0] == orig[i].1 by {
            assert(rev@[n - 1 - orig[i].0] == rev_before[n - 1 - orig[i].0]);
        }
        assert forall|i: int|
            0 <= i < n && (orig[i].0 as int) < v@.len() implies v@[(#[trigger] orig[i]).0 as int]
                == orig[i].1 by {
            if (orig[i].0 as int) < v_before.len() {
                assert(v@[orig[i].0 as int] == v_before[orig[i].0 as int]);
            }
        }
    }
    Some(v)
}

} // verus!
