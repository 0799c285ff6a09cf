//! Finding the compositor's sockets when the environment does not name them:
//! which files look like a Wayland socket, and which candidates are newest.
use vstd::prelude::*;
use crate::text::{chars_of, contains, contains_exec, ends_with, ends_with_exec, eq_chars, starts_with, starts_with_exec};

verus! {

/// A file name that can be the compositor's Wayland socket: `wayland-*`, but
/// no `*.lock` file and no helper daemon's `*-awww-*` socket.
pub open spec fn is_socket_name(n: Seq<char>) -> bool {
    (starts_with(n, "wayland-"@) || n == "wayland-0"@) && !ends_with(n, ".lock"@) && !contains(
        n,
        "-awww-"@,
    )
}

pub fn is_compositor_socket_name(name: &str) -> (r: bool)
    ensures
        r == is_socket_name(name@),
{
    let n = chars_of(name);
    (starts_with_exec(&n, &chars_of("wayland-")) || eq_chars(&n, &chars_of("wayland-0")))
        && !ends_with_exec(&n, &chars_of(".lock")) && !contains_exec(&n, &chars_of("-awww-"))
}

/// The first of the newest entries, by modification time.
pub fn newest_index(mtimes: &Vec<i128>) -> (r: Option<usize>)
    ensures
        r is None <==> mtimes@.len() == 0,
        r matches Some(i) ==> {
            &&& i < mtimes@.len()
            &&& forall|j: int| 0 <= j < mtimes@.len() ==> mtimes@[j] <= mtimes@[i as int]
            &&& forall|j: int| 0 <= j < i ==> mtimes@[j] < mtimes@[i as int]
        },
{
    let mut best: Option<usize> = None;
    let mut k: usize = 0;
    while k < mtimes.len()
        invariant
            k <= mtimes@.len(),
            best is None <==> k == 0,
            best matches Some(i) ==> {
                &&& i < k
                &&& forall|j: int| 0 <= j < k ==> mtimes@[j] <= mtimes@[i as int]
                &&& forall|j: int| 0 <= j < i ==> mtimes@[j] < mtimes@[i as int]
            },
        decreases mtimes@.len() - k,
    {
        let replace = match best {
            Some(i) => mtimes[k] > mtimes[i],
            None => true,
        };
        if replace {
            best = Some(k);
        }
        k += 1;
    }
    best
}

/// The indices of `keys` from the largest key down; equal keys keep their order.
pub open spec fn is_newest_first(keys: Seq<i128>, order: Seq<usize>) -> bool {
    &&& order.len() == keys.len()
    &&& forall|a: int| 0 <= a < order.len() ==> #[trigger] order[a] < keys.len()
    &&& forall|a: int, b: int| 0 <= a < b < order.len() ==> #[trigger] order[a] != #[trigger] order[b]
    &&& forall|a: int, b: int|
        0 <= a < b < order.len() ==> keys[#[trigger] order[a] as int] > keys[#[trigger] order[b] as int]
            || (keys[order[a] as int] == keys[order[b] as int] && order[a] < order[b])
}

/// Orders the candidates from the newest down (a stable sort by descending
/// modification time).
pub fn newest_first(keys: &Vec<i128>) -> (order: Vec<usize>)
    ensures
        is_newest_first(keys@, order@),
{
    let mut order: Vec<usize> = Vec::new();
    let mut m: usize = 0;
    while m < keys.len()
        invariant
            m <= keys@.len(),
            order@.len() == m,
            forall|a: int| 0 <= a < order@.len() ==> #[trigger] order@[a] < m,
            forall|a: int, b: int| 0 <= a < b < order@.len() ==> #[trigger] order@[a] != #[trigger] order@[b],
            forall|a: int, b: int|
                0 <= a < b < order@.len() ==> keys@[#[trigger] order@[a] as int] > keys@[#[trigger] order@[b] as int]
                    || (keys@[order@[a] as int] == keys@[order@[b] as int] && order@[a] < order@[b]),
        decreases keys@.len() - m,
    {
        // Insert m after every index whose key is at least as large.
        let mut p: usize = 0;
        while p < order.len() && keys[order[p]] >= keys[m]
            invariant
                p <= order@.len(),
                order@.len() == m,
                m < keys@.len(),
                forall|a: int| 0 <= a < order@.len() ==> #[trigger] order@[a] < m,
                forall|j: int| 0 <= j < p ==> keys@[#[trigger] order@[j] as int] >= keys@[m as int],
            decreases order@.len() - p,
        {
            p += 1;
        }
        let ghost before = order@;
        proof {
            before.insert_ensures(p as int, m);
        }
        order.insert(p, m);
        proof {
            assert forall|a: int| 0 <= a < order@.len() implies #[trigger] order@[a] < m + 1 by {
                if a < p {
                    assert(order@[a] == before[a]);
                } else if a > p {
                    assert(order@[a] == before[a - 1]);
                }
            }
            assert forall|a: int, b: int|
                0 <= a < b < order@.len() implies #[trigger] order@[a] != #[trigger] order@[b] by {
                if a < p && b < p {
                    assert(order@[a] == before[a] && order@[b] == before[b]);
                } else if a < p && b == p {
                    assert(order@[a] == before[a]);
                } else if a < p {
                    assert(order@[a] == before[a] && order@[b] == before[b - 1]);
                } else if a == p {
                    assert(order@[b] == before[b - 1]);
                } else {
                    assert(order@[a] == before[a - 1] && order@[b] == before[b - 1]);
                }
            }
            assert forall|a: int, b: int|
                0 <= a < b < order@.len() implies keys@[#[trigger] order@[a] as int] > keys@[#[trigger] order@[b] as int]
                    || (keys@[order@[a] as int] == keys@[order@[b] as int] && order@[a] < order@[b]) by {
                if b < p {
                    assert(order@[a] == before[a] && order@[b] == before[b]);
                } else if b == p {
                    assert(order@[a] == before[a]);
                    assert(keys@[before[a] as int] >= keys@[m as int]);
                } else if a < p {
                    assert(order@[a] == before[a] && order@[b] == before[b - 1]);
                } else if a == p {
                    assert(order@[b] == before[b - 1]);
                    if (p as int) < before.len() {
                        assert(keys@[before[p as int] as int] < keys@[m as int]);
                        if b - 1 > p {
                            assert(order@[p + 1] == before[p as int]);
                        }
                    }
                } else {
                    assert(order@[a] == before[a - 1] && order@[b] == before[b - 1]);
                }
            }
        }
        m += 1;
    }
    order
}

} // verus!
