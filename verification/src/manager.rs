//! The session registry: a concurrent-map core that tracks live transport
//! sessions (`by_id`) and, for verified users, the ids of their live
//! sessions (`by_user`).
//!
//! The registry is a sequential data structure; callers that share it across
//! threads wrap it in a lock and keep the critical section to the single map
//! operation. Its central invariant, [`ConnectionManager::wf`], says that
//! `by_user` never names a session id absent from `by_id`, that ids and user
//! names are unique keys, and that no user entry is an empty leftover.
//!
//! `by_user` has set semantics: contracts fix which ids a user's entry holds,
//! not the order they are reported in (promotion order is nevertheless kept,
//! see [`ConnectionManager::verify_connection`]).

use vstd::prelude::*;

verus! {

/// One live transport connection, as the registry models it: the
/// process-unique session identifier the transport assigned to it.
#[derive(Clone, Copy, PartialEq, Eq, Structural, Debug)]
pub struct Session {
    pub id: usize,
}

/// A `by_id` record: the key, the session handle stored under it, and the
/// user the session was promoted under, if any.
#[derive(Clone, Debug)]
pub struct Entry {
    pub sid: usize,
    pub session: Session,
    pub user: Option<String>,
}

/// A `by_user` record: a verified user and the ids of that user's live
/// sessions.
#[derive(Clone, Debug)]
pub struct UserEntry {
    pub name: String,
    pub ids: Vec<usize>,
}

/// The session registry itself: `entries` is `by_id`, `users` is `by_user`.
#[derive(Debug)]
pub struct ConnectionManager {
    pub entries: Vec<Entry>,
    pub users: Vec<UserEntry>,
}

/// The user a `by_id` record was promoted under, as a sequence of characters.
pub open spec fn user_of_entry(e: Entry) -> Option<Seq<char>> {
    match e.user {
        Some(u) => Some(u@),
        None => None,
    }
}

/// Some record of `es` has key `id`.
pub open spec fn has_sid(es: Seq<Entry>, id: usize) -> bool {
    exists|i: int| 0 <= i < es.len() && (#[trigger] es[i]).sid == id
}

/// The index of the record of `es` with key `id` (meaningful under
/// [`sids_unique_seq`] when [`has_sid`] holds).
pub open spec fn sid_idx(es: Seq<Entry>, id: usize) -> int {
    choose|i: int| 0 <= i < es.len() && (#[trigger] es[i]).sid == id
}

/// The keys of `es` are pairwise distinct.
pub open spec fn sids_unique_seq(es: Seq<Entry>) -> bool {
    forall|i: int, j: int|
        #![trigger es[i], es[j]]
        0 <= i < j < es.len() ==> es[i].sid != es[j].sid
}

/// Some record of `us` is for user `u`.
pub open spec fn has_user(us: Seq<UserEntry>, u: Seq<char>) -> bool {
    exists|i: int| 0 <= i < us.len() && (#[trigger] us[i]).name@ == u
}

/// The index of the record of `us` for user `u` (meaningful under
/// [`users_unique_seq`] when [`has_user`] holds).
pub open spec fn user_idx(us: Seq<UserEntry>, u: Seq<char>) -> int {
    choose|i: int| 0 <= i < us.len() && (#[trigger] us[i]).name@ == u
}

/// The user names of `us` are pairwise distinct.
pub open spec fn users_unique_seq(us: Seq<UserEntry>) -> bool {
    forall|i: int, j: int|
        #![trigger us[i], us[j]]
        0 <= i < j < us.len() ==> us[i].name@ != us[j].name@
}

/// The session ids recorded for user `u`, the empty sequence if `u` has no
/// record.
pub open spec fn user_ids_of(us: Seq<UserEntry>, u: Seq<char>) -> Seq<usize> {
    if has_user(us, u) {
        us[user_idx(us, u)].ids@
    } else {
        Seq::<usize>::empty()
    }
}

/// A `by_user` record in isolation: it names at least one session and no
/// session twice.
pub open spec fn user_rec_ok(ue: UserEntry) -> bool {
    &&& ue.ids@.len() > 0
    &&& forall|a: int, b: int|
        #![trigger ue.ids@[a], ue.ids@[b]]
        0 <= a < b < ue.ids@.len() ==> ue.ids@[a] != ue.ids@[b]
}

/// Under unique keys, a record found at `i` with key `id` is the record
/// [`sid_idx`] denotes.
pub proof fn lemma_sid_idx(es: Seq<Entry>, id: usize, i: int)
    requires
        sids_unique_seq(es),
        0 <= i < es.len(),
        es[i].sid == id,
    ensures
        has_sid(es, id),
        sid_idx(es, id) == i,
{
    assert(has_sid(es, id));
    let k = sid_idx(es, id);
    if k < i {
        assert(es[k].sid != es[i].sid);
    } else if k > i {
        assert(es[i].sid != es[k].sid);
    }
}

/// Under unique user names, a record found at `i` for user `u` is the record
/// [`user_idx`] denotes.
pub proof fn lemma_user_idx(us: Seq<UserEntry>, u: Seq<char>, i: int)
    requires
        users_unique_seq(us),
        0 <= i < us.len(),
        us[i].name@ == u,
    ensures
        has_user(us, u),
        user_idx(us, u) == i,
{
    assert(has_user(us, u));
    let k = user_idx(us, u);
    if k < i {
        assert(us[k].name@ != us[i].name@);
    } else if k > i {
        assert(us[i].name@ != us[k].name@);
    }
}

/// Removing the record at `i` from `by_id` drops its key and leaves every
/// other key's record in place.
pub proof fn lemma_entries_remove(es: Seq<Entry>, i: int)
    requires
        sids_unique_seq(es),
        0 <= i < es.len(),
    ensures
        sids_unique_seq(es.remove(i)),
        !has_sid(es.remove(i), es[i].sid),
        forall|x: usize| x != es[i].sid ==> #[trigger] has_sid(es.remove(i), x) == has_sid(es, x),
        forall|x: usize|
            x != es[i].sid && has_sid(es, x) ==> es.remove(i)[sid_idx(es.remove(i), x)] == es[sid_idx(
                es,
                x,
            )],
{
    let r = es.remove(i);
    es.remove_ensures(i);
    let id = es[i].sid;
    assert forall|a: int, b: int| 0 <= a < b < r.len() implies r[a].sid != r[b].sid by {
        let a2: int = if a < i {
            a
        } else {
            a + 1
        };
        let b2: int = if b < i {
            b
        } else {
            b + 1
        };
        assert(r[a] == es[a2]);
        assert(r[b] == es[b2]);
    }
    assert forall|j: int| 0 <= j < r.len() implies r[j].sid != id by {
        let j2: int = if j < i {
            j
        } else {
            j + 1
        };
        assert(r[j] == es[j2]);
    }
    assert(!has_sid(r, id));
    assert forall|x: usize| x != id implies #[trigger] has_sid(r, x) == has_sid(es, x) by {
        if has_sid(es, x) {
            let j = sid_idx(es, x);
            assert(0 <= j < es.len() && es[j].sid == x);
            let j2: int = if j < i {
                j
            } else {
                j - 1
            };
            assert(r[j2] == es[j]);
            assert(has_sid(r, x));
        }
        if has_sid(r, x) {
            let j = sid_idx(r, x);
            assert(0 <= j < r.len() && r[j].sid == x);
            let j2: int = if j < i {
                j
            } else {
                j + 1
            };
            assert(es[j2] == r[j]);
            assert(has_sid(es, x));
        }
    }
    assert forall|x: usize| x != id && has_sid(es, x) implies r[sid_idx(r, x)] == es[sid_idx(es, x)] by {
        let j = sid_idx(es, x);
        assert(0 <= j < es.len() && es[j].sid == x);
        lemma_sid_idx(es, x, j);
        let j2: int = if j < i {
            j
        } else {
            j - 1
        };
        assert(r[j2] == es[j]);
        lemma_sid_idx(r, x, j2);
    }
}

/// Replacing the record at `i` of `by_id` with one that carries the same key
/// changes that key's record alone.
pub proof fn lemma_entries_update(es: Seq<Entry>, i: int, e: Entry)
    requires
        sids_unique_seq(es),
        0 <= i < es.len(),
        e.sid == es[i].sid,
    ensures
        sids_unique_seq(es.update(i, e)),
        has_sid(es.update(i, e), e.sid),
        sid_idx(es.update(i, e), e.sid) == i,
        forall|x: usize| x != e.sid ==> #[trigger] has_sid(es.update(i, e), x) == has_sid(es, x),
        forall|x: usize|
            x != e.sid && has_sid(es, x) ==> es.update(i, e)[sid_idx(es.update(i, e), x)] == es[sid_idx(
                es,
                x,
            )],
{
    let r = es.update(i, e);
    assert(sids_unique_seq(r));
    lemma_sid_idx(r, e.sid, i);
    assert forall|x: usize| x != e.sid implies #[trigger] has_sid(r, x) == has_sid(es, x) by {
        if has_sid(es, x) {
            let j = sid_idx(es, x);
            assert(0 <= j < es.len() && es[j].sid == x);
            assert(r[j] == es[j]);
            assert(has_sid(r, x));
        }
        if has_sid(r, x) {
            let j = sid_idx(r, x);
            assert(0 <= j < r.len() && r[j].sid == x);
            assert(es[j] == r[j]);
            assert(has_sid(es, x));
        }
    }
    assert forall|x: usize| x != e.sid && has_sid(es, x) implies r[sid_idx(r, x)] == es[sid_idx(es, x)] by {
        let j = sid_idx(es, x);
        assert(0 <= j < es.len() && es[j].sid == x);
        lemma_sid_idx(es, x, j);
        assert(r[j] == es[j]);
        lemma_sid_idx(r, x, j);
    }
}

/// Appending a record with a fresh key to `by_id` leaves every present key's
/// record in place.
pub proof fn lemma_entries_push(es: Seq<Entry>, e: Entry)
    requires
        sids_unique_seq(es),
        !has_sid(es, e.sid),
    ensures
        sids_unique_seq(es.push(e)),
        has_sid(es.push(e), e.sid),
        sid_idx(es.push(e), e.sid) == es.len(),
        forall|x: usize| x != e.sid ==> #[trigger] has_sid(es.push(e), x) == has_sid(es, x),
        forall|x: usize|
            x != e.sid && has_sid(es, x) ==> es.push(e)[sid_idx(es.push(e), x)] == es[sid_idx(es, x)],
{
    let r = es.push(e);
    assert forall|a: int, b: int| 0 <= a < b < r.len() implies r[a].sid != r[b].sid by {
        if b == es.len() {
            assert(r[a] == es[a]);
            assert(es[a].sid != e.sid);
        } else {
            assert(r[a] == es[a]);
            assert(r[b] == es[b]);
        }
    }
    assert(r[es.len() as int] == e);
    lemma_sid_idx(r, e.sid, es.len() as int);
    assert forall|x: usize| x != e.sid implies #[trigger] has_sid(r, x) == has_sid(es, x) by {
        if has_sid(es, x) {
            let j = sid_idx(es, x);
            assert(0 <= j < es.len() && es[j].sid == x);
            assert(r[j] == es[j]);
            assert(has_sid(r, x));
        }
        if has_sid(r, x) {
            let j = sid_idx(r, x);
            assert(0 <= j < r.len() && r[j].sid == x);
            assert(j != es.len());
            assert(es[j] == r[j]);
            assert(has_sid(es, x));
        }
    }
    assert forall|x: usize| x != e.sid && has_sid(es, x) implies r[sid_idx(r, x)] == es[sid_idx(es, x)] by {
        let j = sid_idx(es, x);
        assert(0 <= j < es.len() && es[j].sid == x);
        lemma_sid_idx(es, x, j);
        assert(r[j] == es[j]);
        lemma_sid_idx(r, x, j);
    }
}

/// Removing the record at `i` from `by_user` drops its user and leaves every
/// other user's record in place.
pub proof fn lemma_users_remove(us: Seq<UserEntry>, i: int)
    requires
        users_unique_seq(us),
        0 <= i < us.len(),
    ensures
        users_unique_seq(us.remove(i)),
        !has_user(us.remove(i), us[i].name@),
        forall|u: Seq<char>|
            u != us[i].name@ ==> #[trigger] has_user(us.remove(i), u) == has_user(us, u),
        forall|u: Seq<char>|
            u != us[i].name@ && has_user(us, u) ==> us.remove(i)[user_idx(us.remove(i), u)]
                == us[user_idx(us, u)],
{
    let r = us.remove(i);
    us.remove_ensures(i);
    let nm = us[i].name@;
    assert forall|a: int, b: int| 0 <= a < b < r.len() implies r[a].name@ != r[b].name@ by {
        let a2: int = if a < i {
            a
        } else {
            a + 1
        };
        let b2: int = if b < i {
            b
        } else {
            b + 1
        };
        assert(r[a] == us[a2]);
        assert(r[b] == us[b2]);
    }
    assert forall|j: int| 0 <= j < r.len() implies r[j].name@ != nm by {
        let j2: int = if j < i {
            j
        } else {
            j + 1
        };
        assert(r[j] == us[j2]);
    }
    assert(!has_user(r, nm));
    assert forall|u: Seq<char>| u != nm implies #[trigger] has_user(r, u) == has_user(us, u) by {
        if has_user(us, u) {
            let j = user_idx(us, u);
            assert(0 <= j < us.len() && us[j].name@ == u);
            let j2: int = if j < i {
                j
            } else {
                j - 1
            };
            assert(r[j2] == us[j]);
            assert(has_user(r, u));
        }
        if has_user(r, u) {
            let j = user_idx(r, u);
            assert(0 <= j < r.len() && r[j].name@ == u);
            let j2: int = if j < i {
                j
            } else {
                j + 1
            };
            assert(us[j2] == r[j]);
            assert(has_user(us, u));
        }
    }
    assert forall|u: Seq<char>| u != nm && has_user(us, u) implies r[user_idx(r, u)] == us[user_idx(
        us,
        u,
    )] by {
        let j = user_idx(us, u);
        assert(0 <= j < us.len() && us[j].name@ == u);
        lemma_user_idx(us, u, j);
        let j2: int = if j < i {
            j
        } else {
            j - 1
        };
        assert(r[j2] == us[j]);
        lemma_user_idx(r, u, j2);
    }
}

/// Replacing the record at `i` of `by_user` with one for the same user
/// changes that user's record alone.
pub proof fn lemma_users_update(us: Seq<UserEntry>, i: int, e: UserEntry)
    requires
        users_unique_seq(us),
        0 <= i < us.len(),
        e.name@ == us[i].name@,
    ensures
        users_unique_seq(us.update(i, e)),
        has_user(us.update(i, e), e.name@),
        user_idx(us.update(i, e), e.name@) == i,
        forall|u: Seq<char>|
            u != e.name@ ==> #[trigger] has_user(us.update(i, e), u) == has_user(us, u),
        forall|u: Seq<char>|
            u != e.name@ && has_user(us, u) ==> us.update(i, e)[user_idx(us.update(i, e), u)]
                == us[user_idx(us, u)],
{
    let r = us.update(i, e);
    assert(users_unique_seq(r));
    lemma_user_idx(r, e.name@, i);
    assert forall|u: Seq<char>| u != e.name@ implies #[trigger] has_user(r, u) == has_user(us, u) by {
        if has_user(us, u) {
            let j = user_idx(us, u);
            assert(0 <= j < us.len() && us[j].name@ == u);
            assert(r[j] == us[j]);
            assert(has_user(r, u));
        }
        if has_user(r, u) {
            let j = user_idx(r, u);
            assert(0 <= j < r.len() && r[j].name@ == u);
            assert(us[j] == r[j]);
            assert(has_user(us, u));
        }
    }
    assert forall|u: Seq<char>| u != e.name@ && has_user(us, u) implies r[user_idx(r, u)]
        == us[user_idx(us, u)] by {
        let j = user_idx(us, u);
        assert(0 <= j < us.len() && us[j].name@ == u);
        lemma_user_idx(us, u, j);
        assert(r[j] == us[j]);
        lemma_user_idx(r, u, j);
    }
}

/// Appending a record for a fresh user to `by_user` leaves every present
/// user's record in place.
pub proof fn lemma_users_push(us: Seq<UserEntry>, e: UserEntry)
    requires
        users_unique_seq(us),
        !has_user(us, e.name@),
    ensures
        users_unique_seq(us.push(e)),
        has_user(us.push(e), e.name@),
        user_idx(us.push(e), e.name@) == us.len(),
        forall|u: Seq<char>| u != e.name@ ==> #[trigger] has_user(us.push(e), u) == has_user(us, u),
        forall|u: Seq<char>|
            u != e.name@ && has_user(us, u) ==> us.push(e)[user_idx(us.push(e), u)] == us[user_idx(
                us,
                u,
            )],
{
    let r = us.push(e);
    assert forall|a: int, b: int| 0 <= a < b < r.len() implies r[a].name@ != r[b].name@ by {
        if b == us.len() {
            assert(r[a] == us[a]);
            assert(us[a].name@ != e.name@);
        } else {
            assert(r[a] == us[a]);
            assert(r[b] == us[b]);
        }
    }
    assert(r[us.len() as int] == e);
    lemma_user_idx(r, e.name@, us.len() as int);
    assert forall|u: Seq<char>| u != e.name@ implies #[trigger] has_user(r, u) == has_user(us, u) by {
        if has_user(us, u) {
            let j = user_idx(us, u);
            assert(0 <= j < us.len() && us[j].name@ == u);
            assert(r[j] == us[j]);
            assert(has_user(r, u));
        }
        if has_user(r, u) {
            let j = user_idx(r, u);
            assert(0 <= j < r.len() && r[j].name@ == u);
            assert(j != us.len());
            assert(us[j] == r[j]);
            assert(has_user(us, u));
        }
    }
    assert forall|u: Seq<char>| u != e.name@ && has_user(us, u) implies r[user_idx(r, u)]
        == us[user_idx(us, u)] by {
        let j = user_idx(us, u);
        assert(0 <= j < us.len() && us[j].name@ == u);
        lemma_user_idx(us, u, j);
        assert(r[j] == us[j]);
        lemma_user_idx(r, u, j);
    }
}

/// Drops session `id` from the `by_user` record of `name`, removing the
/// record outright when `id` was its last session. Requires that no other
/// user's record names `id`; afterwards no record at all does.
#[verifier::loop_isolation(false)]
fn unlink_user_id(users: &mut Vec<UserEntry>, name: &String, id: usize)
    requires
        users_unique_seq(old(users)@),
        forall|i: int| 0 <= i < old(users)@.len() ==> user_rec_ok(#[trigger] old(users)@[i]),
        forall|i: int|
            0 <= i < old(users)@.len() && (#[trigger] old(users)@[i]).name@ != name@
                ==> !old(users)@[i].ids@.contains(id),
    ensures
        users_unique_seq(final(users)@),
        forall|i: int| 0 <= i < final(users)@.len() ==> user_rec_ok(#[trigger] final(users)@[i]),
        forall|u: Seq<char>| !(#[trigger] user_ids_of(final(users)@, u)).contains(id),
        forall|u: Seq<char>, x: usize|
            x != id ==> #[trigger] user_ids_of(final(users)@, u).contains(x) == user_ids_of(
                old(users)@,
                u,
            ).contains(x),
        forall|u: Seq<char>|
            !user_ids_of(old(users)@, u).contains(id) ==> #[trigger] user_ids_of(final(users)@, u)
                == user_ids_of(old(users)@, u),
{
    let ghost us0 = users@;
    let n = users.len();
    let mut i: usize = 0;
    while i < n
        invariant
            users@ == us0,
            n == us0.len(),
            i <= n,
            forall|j: int| 0 <= j < i ==> (#[trigger] us0[j]).name@ != name@,
        decreases n - i,
    {
        if users[i].name == *name {
            proof {
                lemma_user_idx(us0, name@, i as int);
            }
            let m = users[i].ids.len();
            let mut k: usize = 0;
            while k < m
                invariant
                    users@ == us0,
                    0 <= i < us0.len(),
                    us0[i as int].name@ == name@,
                    m == us0[i as int].ids@.len(),
                    k <= m,
                    forall|t: int| 0 <= t < k ==> us0[i as int].ids@[t] != id,
                decreases m - k,
            {
                if users[i].ids[k] == id {
                    if m == 1 {
                        users.remove(i);
                        proof {
                            lemma_users_remove(us0, i as int);
                            us0.remove_ensures(i as int);
                            let us1 = users@;
                            assert forall|j: int| 0 <= j < us1.len() implies user_rec_ok(
                                #[trigger] us1[j],
                            ) by {
                                let j2: int = if j < i {
                                    j
                                } else {
                                    j + 1
                                };
                                assert(us1[j] == us0[j2]);
                            }
                            assert forall|u: Seq<char>| !(#[trigger] user_ids_of(
                                us1,
                                u,
                            )).contains(id) by {
                                if u == name@ {
                                    assert(!has_user(us1, u));
                                } else if has_user(us0, u) {
                                    lemma_user_idx(us0, u, user_idx(us0, u));
                                    assert(user_ids_of(us1, u) == user_ids_of(us0, u));
                                    let j = user_idx(us0, u);
                                    assert(!us0[j].ids@.contains(id));
                                } else {
                                    assert(!has_user(us1, u));
                                }
                            }
                            assert forall|u: Seq<char>, x: usize| x != id implies #[trigger] user_ids_of(
                                us1,
                                u,
                            ).contains(x) == user_ids_of(us0, u).contains(x) by {
                                if u == name@ {
                                    assert(us0[i as int].ids@.len() == 1);
                                    assert(us0[i as int].ids@[0] == id);
                                    assert(user_ids_of(us0, u) == us0[i as int].ids@);
                                    assert(!user_ids_of(us0, u).contains(x));
                                    assert(!has_user(us1, u));
                                }
                            }
                            assert forall|u: Seq<char>| !user_ids_of(us0, u).contains(id) implies #[trigger] user_ids_of(
                                us1,
                                u,
                            ) == user_ids_of(us0, u) by {
                                if u == name@ {
                                    assert(user_ids_of(us0, u) == us0[i as int].ids@);
                                    assert(us0[i as int].ids@[0] == id);
                                    assert(user_ids_of(us0, u).contains(id));
                                }
                            }
                        }
                    } else {
                        users[i].ids.remove(k);
                        proof {
                            let us1 = users@;
                            let e1 = us1[i as int];
                            assert(e1.name@ == name@);
                            assert(e1.ids@ == us0[i as int].ids@.remove(k as int));
                            us0[i as int].ids@.remove_ensures(k as int);
                            assert(us1 == us0.update(i as int, e1));
                            lemma_users_update(us0, i as int, e1);
                            let ids0 = us0[i as int].ids@;
                            let ids1 = e1.ids@;
                            // the record keeps its shape
                            assert forall|a: int, b: int|
                                #![trigger ids1[a], ids1[b]]
                                0 <= a < b < ids1.len() implies ids1[a] != ids1[b] by {
                                let a2: int = if a < k {
                                    a
                                } else {
                                    a + 1
                                };
                                let b2: int = if b < k {
                                    b
                                } else {
                                    b + 1
                                };
                                assert(ids1[a] == ids0[a2]);
                                assert(ids1[b] == ids0[b2]);
                            }
                            assert(user_rec_ok(e1));
                            assert forall|j: int| 0 <= j < us1.len() implies user_rec_ok(
                                #[trigger] us1[j],
                            ) by {
                                if j != i {
                                    assert(us1[j] == us0[j]);
                                }
                            }
                            // membership in the record: id is gone, others stay
                            assert forall|t: int| 0 <= t < ids1.len() implies ids1[t] != id by {
                                let t2: int = if t < k {
                                    t
                                } else {
                                    t + 1
                                };
                                assert(ids1[t] == ids0[t2]);
                                if t2 < k {
                                } else {
                                    assert(ids0[k as int] == id);
                                    assert(ids0[k as int] != ids0[t2]);
                                }
                            }
                            assert(!ids1.contains(id));
                            assert forall|x: usize| x != id implies ids1.contains(x) == ids0.contains(
                                x,
                            ) by {
                                if ids0.contains(x) {
                                    let t = choose|t: int|
                                        0 <= t < ids0.len() && ids0[t] == x;
                                    let t2: int = if t < k {
                                        t
                                    } else {
                                        t - 1
                                    };
                                    assert(ids1[t2] == ids0[t]);
                                    assert(ids1.contains(x));
                                }
                                if ids1.contains(x) {
                                    let t = choose|t: int|
                                        0 <= t < ids1.len() && ids1[t] == x;
                                    let t2: int = if t < k {
                                        t
                                    } else {
                                        t + 1
                                    };
                                    assert(ids0[t2] == ids1[t]);
                                    assert(ids0.contains(x));
                                }
                            }
                            assert(user_ids_of(us0, name@) == ids0);
                            assert(user_ids_of(us1, name@) == ids1);
                            assert forall|u: Seq<char>| !(#[trigger] user_ids_of(
                                us1,
                                u,
                            )).contains(id) by {
                                if u != name@ {
                                    if has_user(us0, u) {
                                        lemma_user_idx(us0, u, user_idx(us0, u));
                                        assert(user_ids_of(us1, u) == user_ids_of(us0, u));
                                        assert(!us0[user_idx(us0, u)].ids@.contains(id));
                                    } else {
                                        assert(!has_user(us1, u));
                                    }
                                }
                            }
                            assert forall|u: Seq<char>, x: usize| x != id implies #[trigger] user_ids_of(
                                us1,
                                u,
                            ).contains(x) == user_ids_of(us0, u).contains(x) by {
                                if u != name@ {
                                    if has_user(us0, u) {
                                        lemma_user_idx(us0, u, user_idx(us0, u));
                                        assert(user_ids_of(us1, u) == user_ids_of(us0, u));
                                    } else {
                                        assert(!has_user(us1, u));
                                    }
                                }
                            }
                            assert forall|u: Seq<char>| !user_ids_of(us0, u).contains(id) implies #[trigger] user_ids_of(
                                us1,
                                u,
                            ) == user_ids_of(us0, u) by {
                                if u == name@ {
                                    assert(ids0[k as int] == id);
                                    assert(ids0.contains(id));
                                } else {
                                    if has_user(us0, u) {
                                        lemma_user_idx(us0, u, user_idx(us0, u));
                                    } else {
                                        assert(!has_user(us1, u));
                                    }
                                }
                            }
                        }
                    }
                    return;
                }
                k += 1;
            }
            // the record never named `id`: nothing to do
            proof {
                assert(user_ids_of(us0, name@) == us0[i as int].ids@);
                assert forall|u: Seq<char>| !(#[trigger] user_ids_of(us0, u)).contains(id) by {
                    if has_user(us0, u) {
                        let j = user_idx(us0, u);
                        assert(0 <= j < us0.len() && us0[j].name@ == u);
                        lemma_user_idx(us0, u, j);
                        if u == name@ {
                            assert(j == i);
                        } else {
                            assert(!us0[j].ids@.contains(id));
                        }
                    }
                }
            }
            return;
        }
        i += 1;
    }
    // no record for `name`; no record names `id` either
    proof {
        assert forall|u: Seq<char>| !(#[trigger] user_ids_of(us0, u)).contains(id) by {
            if has_user(us0, u) {
                let j = user_idx(us0, u);
                assert(0 <= j < us0.len() && us0[j].name@ == u);
                assert(us0[j].name@ != name@);
                assert(!us0[j].ids@.contains(id));
            }
        }
    }
}

impl ConnectionManager {
    /// `by_id` holds a session under this id.
    pub open spec fn spec_has(self, id: usize) -> bool {
        has_sid(self.entries@, id)
    }

    /// The session stored under `id` (meaningful when [`Self::spec_has`] holds).
    pub open spec fn spec_session(self, id: usize) -> Session {
        self.entries@[sid_idx(self.entries@, id)].session
    }

    /// The user the session under `id` was promoted under, if any
    /// (meaningful when [`Self::spec_has`] holds).
    pub open spec fn spec_user_of(self, id: usize) -> Option<Seq<char>> {
        user_of_entry(self.entries@[sid_idx(self.entries@, id)])
    }

    /// `by_user` has a record for user `u`.
    pub open spec fn spec_has_user(self, u: Seq<char>) -> bool {
        has_user(self.users@, u)
    }

    /// The session ids `by_user` records for user `u`.
    pub open spec fn spec_user_ids(self, u: Seq<char>) -> Seq<usize> {
        user_ids_of(self.users@, u)
    }

    /// `by_user` records session `id` under user `u`.
    pub open spec fn spec_by_user_contains(self, u: Seq<char>, id: usize) -> bool {
        self.spec_user_ids(u).contains(id)
    }

    /// Record `i` of `by_user` is well formed: nonempty, without duplicate
    /// ids, and every id it names is live in `by_id` and promoted under
    /// exactly this user.
    pub open spec fn user_entry_ok(self, i: int) -> bool {
        let ue = self.users@[i];
        &&& user_rec_ok(ue)
        &&& forall|k: int|
            0 <= k < ue.ids@.len() ==> self.spec_has(#[trigger] ue.ids@[k]) && self.spec_user_of(
                ue.ids@[k],
            ) == Some(ue.name@)
    }

    /// Record `j` of `by_id`, if promoted, appears in its user's `by_user`
    /// record.
    pub open spec fn entry_linked(self, j: int) -> bool {
        let e = self.entries@[j];
        e.user is Some ==> self.spec_by_user_contains(e.user->0@, e.sid)
    }

    /// The registry invariant. In particular it implies that `by_user` never
    /// names a session id absent from `by_id` (see
    /// [`lemma_by_user_within_by_id`]).
    pub open spec fn wf(self) -> bool {
        &&& sids_unique_seq(self.entries@)
        &&& users_unique_seq(self.users@)
        &&& forall|i: int| 0 <= i < self.users@.len() ==> #[trigger] self.user_entry_ok(i)
        &&& forall|j: int| 0 <= j < self.entries@.len() ==> #[trigger] self.entry_linked(j)
    }

    /// Everything `by_id` says about ids other than `id` is the same in `pre`
    /// and `post`.
    pub open spec fn frame_except(pre: Self, post: Self, id: usize) -> bool {
        forall|x: usize|
            x != id ==> #[trigger] post.spec_has(x) == pre.spec_has(x) && (pre.spec_has(x)
                ==> post.spec_session(x) == pre.spec_session(x) && post.spec_user_of(x)
                == pre.spec_user_of(x))
    }

    /// `by_user` in `post` is `by_user` in `pre` with session `id` dropped:
    /// membership for every other id is unchanged, `id` is nowhere, and the
    /// records of users that never held `id` are unchanged outright.
    pub open spec fn by_user_drop(pre: Self, post: Self, id: usize) -> bool {
        &&& forall|u: Seq<char>, x: usize| #[trigger]
            post.spec_by_user_contains(u, x) <==> pre.spec_by_user_contains(u, x) && x != id
        &&& forall|u: Seq<char>|
            !pre.spec_by_user_contains(u, id) ==> #[trigger] post.spec_user_ids(u)
                == pre.spec_user_ids(u)
    }

    /// What [`Self::add_connection`] does: the session is live under `id`,
    /// unpromoted, with any promotion of a previous holder of `id` purged;
    /// every other id is untouched.
    pub open spec fn add_effect(pre: Self, id: usize, s: Session, post: Self) -> bool {
        &&& post.spec_has(id)
        &&& post.spec_session(id) == s
        &&& post.spec_user_of(id) is None
        &&& Self::frame_except(pre, post, id)
        &&& Self::by_user_drop(pre, post, id)
    }

    /// What [`Self::remove_connection`] does: `id` is gone from `by_id` and
    /// from every user's `by_user` record; every other id is untouched.
    pub open spec fn remove_effect(pre: Self, id: usize, post: Self) -> bool {
        &&& !post.spec_has(id)
        &&& Self::frame_except(pre, post, id)
        &&& Self::by_user_drop(pre, post, id)
    }

    /// What [`Self::verify_connection`] does: promoting a live, unpromoted
    /// session appends its id to the user's record and marks the session;
    /// promoting an absent or already promoted session changes nothing.
    pub open spec fn promote_effect(pre: Self, u: Seq<char>, id: usize, post: Self) -> bool {
        if pre.spec_has(id) && pre.spec_user_of(id) is None {
            &&& post.spec_has(id)
            &&& post.spec_session(id) == pre.spec_session(id)
            &&& post.spec_user_of(id) == Some(u)
            &&& Self::frame_except(pre, post, id)
            &&& post.spec_user_ids(u) == pre.spec_user_ids(u).push(id)
            &&& forall|v: Seq<char>|
                v != u ==> #[trigger] post.spec_user_ids(v) == pre.spec_user_ids(v)
        } else {
            post == pre
        }
    }

    /// An empty registry.
    pub fn new() -> (r: Self)
        ensures
            r.wf(),
            forall|id: usize| !r.spec_has(id),
            forall|u: Seq<char>| r.spec_user_ids(u) == Seq::<usize>::empty(),
    {
        ConnectionManager { entries: Vec::new(), users: Vec::new() }
    }

    /// Stores `session` under `session_id` in `by_id`. Re-using a live id
    /// silently replaces the previous session — the documented
    /// crash-recovery policy, not an error — and purges any promotion the
    /// replaced session had: the new connection starts unverified.
    #[verifier::loop_isolation(false)]
    pub fn add_connection(&mut self, session_id: usize, session: Session)
        requires
            old(self).wf(),
        ensures
            final(self).wf(),
            Self::add_effect(*old(self), session_id, session, *final(self)),
    {
        let ghost pre = *old(self);
        let ghost es0 = pre.entries@;
        let ghost us0 = pre.users@;
        let n = self.entries.len();
        let mut i: usize = 0;
        while i < n
            invariant
                *self == pre,
                i <= n,
                forall|j: int| 0 <= j < i ==> (#[trigger] es0[j]).sid != session_id,
            decreases n - i,
        {
            if self.entries[i].sid == session_id {
                proof {
                    lemma_sid_idx(es0, session_id, i as int);
                }
                let user_name: Option<String> = match &self.entries[i].user {
                    Some(nm) => Some(nm.clone()),
                    None => None,
                };
                proof {
                    assert forall|j: int| 0 <= j < us0.len() implies user_rec_ok(
                        #[trigger] us0[j],
                    ) by {
                        assert(pre.user_entry_ok(j));
                    }
                    assert forall|j: int|
                        0 <= j < us0.len() && (#[trigger] us0[j]).name@ != user_of_entry(
                            es0[i as int],
                        )->0 implies !us0[j].ids@.contains(session_id) by {
                        if us0[j].ids@.contains(session_id) {
                            assert(pre.user_entry_ok(j));
                            let t = choose|t: int|
                                0 <= t < us0[j].ids@.len() && us0[j].ids@[t] == session_id;
                            assert(pre.spec_user_of(us0[j].ids@[t]) == Some(us0[j].name@));
                        }
                    }
                }
                self.entries[i] = Entry { sid: session_id, session, user: None };
                proof {
                    lemma_entries_update(es0, i as int, self.entries@[i as int]);
                }
                match user_name {
                    Some(nm) => {
                        unlink_user_id(&mut self.users, &nm, session_id);
                    },
                    None => {
                        proof {
                            assert forall|u: Seq<char>| !(#[trigger] user_ids_of(
                                us0,
                                u,
                            )).contains(session_id) by {
                                if has_user(us0, u) {
                                    let j = user_idx(us0, u);
                                    assert(0 <= j < us0.len() && us0[j].name@ == u);
                                    if us0[j].ids@.contains(session_id) {
                                        assert(pre.user_entry_ok(j));
                                        let t = choose|t: int|
                                            0 <= t < us0[j].ids@.len() && us0[j].ids@[t]
                                                == session_id;
                                        assert(pre.spec_user_of(us0[j].ids@[t]) == Some(
                                            us0[j].name@,
                                        ));
                                        assert(user_of_entry(es0[i as int]) is None);
                                    }
                                }
                            }
                        }
                    },
                }
                proof {
                    let es1 = self.entries@;
                    let us1 = self.users@;
                    assert forall|x: usize| x != session_id implies #[trigger] self.spec_has(x)
                        == pre.spec_has(x) && (pre.spec_has(x) ==> self.spec_session(x)
                        == pre.spec_session(x) && self.spec_user_of(x) == pre.spec_user_of(x)) by {
                        if pre.spec_has(x) {
                            assert(has_sid(es1, x));
                            assert(es1[sid_idx(es1, x)] == es0[sid_idx(es0, x)]);
                        }
                    }
                    assert forall|u: Seq<char>, x: usize| #[trigger] self.spec_by_user_contains(u, x)
                        <==> pre.spec_by_user_contains(u, x) && x != session_id by {
                        if x != session_id {
                            assert(user_ids_of(us1, u).contains(x) == user_ids_of(us0, u).contains(
                                x,
                            ));
                        } else {
                            assert(!user_ids_of(us1, u).contains(session_id));
                        }
                    }
                    assert forall|j: int| 0 <= j < us1.len() implies self.user_entry_ok(j) by {
                        let ue = us1[j];
                        lemma_user_idx(us1, ue.name@, j);
                        assert(user_ids_of(us1, ue.name@) == ue.ids@);
                        assert forall|k: int| 0 <= k < ue.ids@.len() implies self.spec_has(
                            #[trigger] ue.ids@[k],
                        ) && self.spec_user_of(ue.ids@[k]) == Some(ue.name@) by {
                            let x = ue.ids@[k];
                            assert(ue.ids@.contains(x));
                            assert(user_ids_of(us1, ue.name@).contains(x));
                            assert(x != session_id);
                            assert(user_ids_of(us0, ue.name@).contains(x));
                            assert(has_user(us0, ue.name@));
                            let j0 = user_idx(us0, ue.name@);
                            assert(0 <= j0 < us0.len() && us0[j0].name@ == ue.name@);
                            assert(pre.user_entry_ok(j0));
                            let t = choose|t: int|
                                0 <= t < us0[j0].ids@.len() && us0[j0].ids@[t] == x;
                            assert(pre.spec_has(x) && pre.spec_user_of(x) == Some(ue.name@));
                        }
                    }
                    assert forall|j: int| 0 <= j < es1.len() implies self.entry_linked(j) by {
                        let e = es1[j];
                        if j != i {
                            assert(es1[j] == es0[j]);
                            if e.user is Some {
                                assert(pre.entry_linked(j));
                                if j < i {
                                    assert(es0[j].sid != es0[i as int].sid);
                                } else {
                                    assert(es0[i as int].sid != es0[j].sid);
                                }
                                assert(self.spec_by_user_contains(e.user->0@, e.sid));
                            }
                        }
                    }
                }
                return;
            }
            i += 1;
        }
        let e = Entry { sid: session_id, session, user: None };
        self.entries.push(e);
        proof {
            assert(!has_sid(es0, session_id));
            lemma_entries_push(es0, self.entries@[es0.len() as int]);
            let es1 = self.entries@;
            let us1 = self.users@;
            assert forall|u: Seq<char>| !(#[trigger] user_ids_of(us0, u)).contains(session_id) by {
                if has_user(us0, u) {
                    let j = user_idx(us0, u);
                    assert(0 <= j < us0.len() && us0[j].name@ == u);
                    if us0[j].ids@.contains(session_id) {
                        assert(pre.user_entry_ok(j));
                        let t = choose|t: int|
                            0 <= t < us0[j].ids@.len() && us0[j].ids@[t] == session_id;
                        assert(pre.spec_has(us0[j].ids@[t]));
                    }
                }
            }
            assert forall|x: usize| x != session_id implies #[trigger] self.spec_has(x)
                == pre.spec_has(x) && (pre.spec_has(x) ==> self.spec_session(x)
                == pre.spec_session(x) && self.spec_user_of(x) == pre.spec_user_of(x)) by {
                if pre.spec_has(x) {
                    assert(has_sid(es1, x));
                    assert(es1[sid_idx(es1, x)] == es0[sid_idx(es0, x)]);
                }
            }
            assert forall|j: int| 0 <= j < us1.len() implies self.user_entry_ok(j) by {
                let ue = us1[j];
                assert(pre.user_entry_ok(j));
                assert forall|k: int| 0 <= k < ue.ids@.len() implies self.spec_has(
                    #[trigger] ue.ids@[k],
                ) && self.spec_user_of(ue.ids@[k]) == Some(ue.name@) by {
                    let x = ue.ids@[k];
                    assert(pre.spec_has(x) && pre.spec_user_of(x) == Some(ue.name@));
                    assert(x != session_id);
                }
            }
            assert forall|j: int| 0 <= j < es1.len() implies self.entry_linked(j) by {
                let e2 = es1[j];
                if j != es0.len() {
                    assert(es1[j] == es0[j]);
                    if e2.user is Some {
                        assert(pre.entry_linked(j));
                        assert(es0[j].sid != session_id);
                        assert(self.spec_by_user_contains(e2.user->0@, e2.sid));
                    }
                }
            }
        }
    }

    /// Removes the session stored under `session_id` from `by_id` and, if it
    /// was promoted, from its user's `by_user` record, dropping the record
    /// when it becomes empty. Removing an id that is not live is a no-op,
    /// not an error.
    #[verifier::loop_isolation(false)]
    pub fn remove_connection(&mut self, session_id: usize)
        requires
            old(self).wf(),
        ensures
            final(self).wf(),
            Self::remove_effect(*old(self), session_id, *final(self)),
    {
        let ghost pre = *old(self);
        let ghost es0 = pre.entries@;
        let ghost us0 = pre.users@;
        let n = self.entries.len();
        let mut i: usize = 0;
        while i < n
            invariant
                *self == pre,
                i <= n,
                forall|j: int| 0 <= j < i ==> (#[trigger] es0[j]).sid != session_id,
            decreases n - i,
        {
            if self.entries[i].sid == session_id {
                proof {
                    lemma_sid_idx(es0, session_id, i as int);
                }
                let user_name: Option<String> = match &self.entries[i].user {
                    Some(nm) => Some(nm.clone()),
                    None => None,
                };
                proof {
                    // each record is well shaped on its own
                    assert forall|j: int| 0 <= j < us0.len() implies user_rec_ok(
                        #[trigger] us0[j],
                    ) by {
                        assert(pre.user_entry_ok(j));
                    }
                    // `session_id` can sit in at most its own user's record
                    assert forall|j: int|
                        0 <= j < us0.len() && (#[trigger] us0[j]).name@ != user_of_entry(
                            es0[i as int],
                        )->0 implies !us0[j].ids@.contains(session_id) by {
                        if us0[j].ids@.contains(session_id) {
                            assert(pre.user_entry_ok(j));
                            let t = choose|t: int|
                                0 <= t < us0[j].ids@.len() && us0[j].ids@[t] == session_id;
                            assert(pre.spec_user_of(us0[j].ids@[t]) == Some(us0[j].name@));
                        }
                    }
                }
                self.entries.remove(i);
                proof {
                    lemma_entries_remove(es0, i as int);
                    es0.remove_ensures(i as int);
                }
                match user_name {
                    Some(nm) => {
                        unlink_user_id(&mut self.users, &nm, session_id);
                    },
                    None => {
                        proof {
                            // nothing to unlink: no record names `session_id`
                            assert forall|u: Seq<char>| !(#[trigger] user_ids_of(
                                us0,
                                u,
                            )).contains(session_id) by {
                                if has_user(us0, u) {
                                    let j = user_idx(us0, u);
                                    assert(0 <= j < us0.len() && us0[j].name@ == u);
                                    if us0[j].ids@.contains(session_id) {
                                        assert(pre.user_entry_ok(j));
                                        let t = choose|t: int|
                                            0 <= t < us0[j].ids@.len() && us0[j].ids@[t]
                                                == session_id;
                                        assert(pre.spec_user_of(us0[j].ids@[t]) == Some(
                                            us0[j].name@,
                                        ));
                                        assert(user_of_entry(es0[i as int]) is None);
                                    }
                                }
                            }
                        }
                    },
                }
                proof {
                    let es1 = self.entries@;
                    let us1 = self.users@;
                    // frame over `by_id`
                    assert forall|x: usize| x != session_id implies #[trigger] self.spec_has(x)
                        == pre.spec_has(x) && (pre.spec_has(x) ==> self.spec_session(x)
                        == pre.spec_session(x) && self.spec_user_of(x) == pre.spec_user_of(x)) by {
                        if pre.spec_has(x) {
                            assert(has_sid(es1, x));
                            assert(es1[sid_idx(es1, x)] == es0[sid_idx(es0, x)]);
                        }
                    }
                    // `by_user` dropped the id and kept the rest
                    assert forall|u: Seq<char>, x: usize| #[trigger] self.spec_by_user_contains(u, x)
                        <==> pre.spec_by_user_contains(u, x) && x != session_id by {
                        if x != session_id {
                            assert(user_ids_of(us1, u).contains(x) == user_ids_of(us0, u).contains(
                                x,
                            ));
                        } else {
                            assert(!user_ids_of(us1, u).contains(session_id));
                        }
                    }
                    // the invariant is restored
                    assert forall|j: int| 0 <= j < us1.len() implies self.user_entry_ok(j) by {
                        let ue = us1[j];
                        lemma_user_idx(us1, ue.name@, j);
                        assert(user_ids_of(us1, ue.name@) == ue.ids@);
                        assert forall|k: int| 0 <= k < ue.ids@.len() implies self.spec_has(
                            #[trigger] ue.ids@[k],
                        ) && self.spec_user_of(ue.ids@[k]) == Some(ue.name@) by {
                            let x = ue.ids@[k];
                            assert(ue.ids@.contains(x));
                            assert(user_ids_of(us1, ue.name@).contains(x));
                            assert(x != session_id);
                            assert(user_ids_of(us0, ue.name@).contains(x));
                            assert(has_user(us0, ue.name@));
                            let j0 = user_idx(us0, ue.name@);
                            assert(0 <= j0 < us0.len() && us0[j0].name@ == ue.name@);
                            assert(pre.user_entry_ok(j0));
                            let t = choose|t: int|
                                0 <= t < us0[j0].ids@.len() && us0[j0].ids@[t] == x;
                            assert(pre.spec_has(x) && pre.spec_user_of(x) == Some(ue.name@));
                        }
                    }
                    assert forall|j: int| 0 <= j < es1.len() implies self.entry_linked(j) by {
                        let e = es1[j];
                        let j2: int = if j < i {
                            j
                        } else {
                            j + 1
                        };
                        assert(es1[j] == es0[j2]);
                        if e.user is Some {
                            assert(pre.entry_linked(j2));
                            if j2 < i {
                                assert(es0[j2].sid != es0[i as int].sid);
                            } else {
                                assert(es0[i as int].sid != es0[j2].sid);
                            }
                            assert(self.spec_by_user_contains(e.user->0@, e.sid));
                        }
                    }
                }
                return;
            }
            i += 1;
        }
        proof {
            assert(!self.spec_has(session_id));
            assert forall|u: Seq<char>| !(#[trigger] pre.spec_user_ids(u)).contains(session_id) by {
                if pre.spec_by_user_contains(u, session_id) {
                    let j = user_idx(us0, u);
                    assert(0 <= j < us0.len() && us0[j].name@ == u);
                    assert(pre.user_entry_ok(j));
                    let t = choose|t: int|
                        0 <= t < us0[j].ids@.len() && us0[j].ids@[t] == session_id;
                    assert(pre.spec_has(us0[j].ids@[t]));
                }
            }
        }
    }

    /// Promotes the session stored under `session_id` to verified state
    /// under `user_id`: the session is marked and its id appended to the
    /// user's `by_user` record (created if absent). Promoting an id that is
    /// not live is a no-op — connect/disconnect and verification may race,
    /// so a stale promotion is benign, not an error. Promoting a session
    /// that is already verified (under any user) is a no-op as well: a
    /// session carries at most one identity, and repeated promotion does
    /// not duplicate it.
    #[verifier::loop_isolation(false)]
    pub fn verify_connection(&mut self, user_id: String, session_id: usize)
        requires
            old(self).wf(),
        ensures
            final(self).wf(),
            Self::promote_effect(*old(self), user_id@, session_id, *final(self)),
    {
        let ghost pre = *old(self);
        let ghost es0 = pre.entries@;
        let ghost us0 = pre.users@;
        let n = self.entries.len();
        let mut i: usize = 0;
        while i < n
            invariant
                *self == pre,
                i <= n,
                forall|j: int| 0 <= j < i ==> (#[trigger] es0[j]).sid != session_id,
            decreases n - i,
        {
            if self.entries[i].sid == session_id {
                proof {
                    lemma_sid_idx(es0, session_id, i as int);
                }
                if self.entries[i].user.is_some() {
                    // already verified: keep the first identity
                    return;
                }
                let s = self.entries[i].session;
                self.entries[i] = Entry {
                    sid: session_id,
                    session: s,
                    user: Some(user_id.clone()),
                };
                proof {
                    lemma_entries_update(es0, i as int, self.entries@[i as int]);
                    // the unpromoted id sits in no user's record
                    assert forall|u: Seq<char>| !(#[trigger] user_ids_of(
                        us0,
                        u,
                    )).contains(session_id) by {
                        if has_user(us0, u) {
                            let j = user_idx(us0, u);
                            assert(0 <= j < us0.len() && us0[j].name@ == u);
                            if us0[j].ids@.contains(session_id) {
                                assert(pre.user_entry_ok(j));
                                let t = choose|t: int|
                                    0 <= t < us0[j].ids@.len() && us0[j].ids@[t] == session_id;
                                assert(pre.spec_user_of(us0[j].ids@[t]) == Some(us0[j].name@));
                                assert(user_of_entry(es0[i as int]) is None);
                            }
                        }
                    }
                }
                let ghost es1 = self.entries@;
                let m = self.users.len();
                let mut j: usize = 0;
                while j < m
                    invariant
                        self.entries@ == es1,
                        self.users@ == us0,
                        j <= m,
                        forall|t: int| 0 <= t < j ==> (#[trigger] us0[t]).name@ != user_id@,
                    decreases m - j,
                {
                    if self.users[j].name == user_id {
                        proof {
                            lemma_user_idx(us0, user_id@, j as int);
                        }
                        self.users[j].ids.push(session_id);
                        proof {
                            let us1 = self.users@;
                            let rec = us1[j as int];
                            assert(rec.name@ == user_id@);
                            assert(rec.ids@ == us0[j as int].ids@.push(session_id));
                            lemma_users_update(us0, j as int, rec);
                            assert(user_ids_of(us0, user_id@) == us0[j as int].ids@);
                            assert(user_ids_of(us1, user_id@) == rec.ids@);
                            self.lemma_promote_link(pre, user_id@, session_id, i as int);
                        }
                        return;
                    }
                    j += 1;
                }
                let mut ids: Vec<usize> = Vec::new();
                ids.push(session_id);
                self.users.push(UserEntry { name: user_id, ids });
                proof {
                    let us1 = self.users@;
                    let rec = us1[us0.len() as int];
                    assert(rec.name@ == user_id@);
                    assert(rec.ids@ == Seq::<usize>::empty().push(session_id));
                    assert(!has_user(us0, user_id@));
                    lemma_users_push(us0, rec);
                    assert(user_ids_of(us0, user_id@) == Seq::<usize>::empty());
                    assert(user_ids_of(us1, user_id@) == rec.ids@);
                    self.lemma_promote_link(pre, user_id@, session_id, i as int);
                }
                return;
            }
            i += 1;
        }
    }

    /// Shared tail of the promotion proof: once `by_id` carries the new
    /// identity and `by_user` the appended id, the invariant and the
    /// promotion effect follow.
    proof fn lemma_promote_link(self, pre: Self, u: Seq<char>, id: usize, i: int)
        requires
            pre.wf(),
            0 <= i < pre.entries@.len(),
            pre.entries@[i].sid == id,
            pre.entries@[i].user is None,
            sid_idx(pre.entries@, id) == i,
            self.entries@ == pre.entries@.update(
                i,
                Entry { sid: id, session: pre.entries@[i].session, user: self.entries@[i].user },
            ),
            self.entries@[i].user is Some,
            self.entries@[i].user->0@ == u,
            sids_unique_seq(self.entries@),
            has_sid(self.entries@, id),
            sid_idx(self.entries@, id) == i,
            forall|x: usize|
                x != id ==> #[trigger] has_sid(self.entries@, x) == has_sid(pre.entries@, x),
            forall|x: usize|
                x != id && has_sid(pre.entries@, x) ==> self.entries@[sid_idx(self.entries@, x)]
                    == pre.entries@[sid_idx(pre.entries@, x)],
            users_unique_seq(self.users@),
            has_user(self.users@, u),
            user_ids_of(self.users@, u) == user_ids_of(pre.users@, u).push(id),
            forall|v: Seq<char>|
                v != u ==> #[trigger] has_user(self.users@, v) == has_user(pre.users@, v),
            forall|v: Seq<char>|
                v != u && has_user(pre.users@, v) ==> self.users@[user_idx(self.users@, v)]
                    == pre.users@[user_idx(pre.users@, v)],
            forall|v: Seq<char>| !(#[trigger] user_ids_of(pre.users@, v)).contains(id),
        ensures
            self.wf(),
            Self::promote_effect(pre, u, id, self),
    {
        let es0 = pre.entries@;
        let es1 = self.entries@;
        let us0 = pre.users@;
        let us1 = self.users@;
        assert(pre.spec_has(id));
        assert(pre.spec_user_of(id) is None);
        assert(self.spec_user_of(id) == Some(u));
        assert(self.spec_session(id) == pre.spec_session(id));
        // frame over by_id
        assert forall|x: usize| x != id implies #[trigger] self.spec_has(x) == pre.spec_has(x) && (
        pre.spec_has(x) ==> self.spec_session(x) == pre.spec_session(x) && self.spec_user_of(x)
            == pre.spec_user_of(x)) by {
            if pre.spec_has(x) {
                assert(has_sid(es1, x));
                assert(es1[sid_idx(es1, x)] == es0[sid_idx(es0, x)]);
            }
        }
        // by_user: u gained exactly id, everyone else unchanged
        assert forall|v: Seq<char>| v != u implies #[trigger] self.spec_user_ids(v)
            == pre.spec_user_ids(v) by {
            if has_user(us0, v) {
                assert(us1[user_idx(us1, v)] == us0[user_idx(us0, v)]);
            } else {
                assert(!has_user(us1, v));
            }
        }
        // invariant: user records
        assert forall|j: int| 0 <= j < us1.len() implies self.user_entry_ok(j) by {
            let ue = us1[j];
            lemma_user_idx(us1, ue.name@, j);
            assert(user_ids_of(us1, ue.name@) == ue.ids@);
            if ue.name@ == u {
                let ids0 = user_ids_of(us0, u);
                assert(ue.ids@ == ids0.push(id));
                assert(!ids0.contains(id));
                if has_user(us0, u) {
                    let j0 = user_idx(us0, u);
                    assert(0 <= j0 < us0.len() && us0[j0].name@ == u);
                    assert(pre.user_entry_ok(j0));
                    assert(ids0 == us0[j0].ids@);
                }
                assert forall|a: int, b: int|
                    #![trigger ue.ids@[a], ue.ids@[b]]
                    0 <= a < b < ue.ids@.len() implies ue.ids@[a] != ue.ids@[b] by {
                    if b == ids0.len() {
                        assert(ue.ids@[b] == id);
                        assert(ue.ids@[a] == ids0[a]);
                        assert(ids0.contains(ids0[a]));
                    } else {
                        assert(ue.ids@[a] == ids0[a]);
                        assert(ue.ids@[b] == ids0[b]);
                    }
                }
                assert(user_rec_ok(ue));
                assert forall|k: int| 0 <= k < ue.ids@.len() implies self.spec_has(
                    #[trigger] ue.ids@[k],
                ) && self.spec_user_of(ue.ids@[k]) == Some(ue.name@) by {
                    let x = ue.ids@[k];
                    if k == ids0.len() {
                        assert(x == id);
                    } else {
                        assert(x == ids0[k]);
                        assert(ids0.contains(x));
                        assert(x != id);
                        let j0 = user_idx(us0, u);
                        assert(pre.user_entry_ok(j0));
                        assert(pre.spec_has(x) && pre.spec_user_of(x) == Some(u));
                    }
                }
            } else {
                assert(has_user(us0, ue.name@));
                assert(us1[user_idx(us1, ue.name@)] == us0[user_idx(us0, ue.name@)]);
                let j0 = user_idx(us0, ue.name@);
                assert(0 <= j0 < us0.len() && us0[j0].name@ == ue.name@);
                assert(pre.user_entry_ok(j0));
                assert(ue == us0[j0]);
                assert forall|k: int| 0 <= k < ue.ids@.len() implies self.spec_has(
                    #[trigger] ue.ids@[k],
                ) && self.spec_user_of(ue.ids@[k]) == Some(ue.name@) by {
                    let x = ue.ids@[k];
                    assert(pre.spec_has(x) && pre.spec_user_of(x) == Some(ue.name@));
                    assert(ue.ids@.contains(x));
                    assert(user_ids_of(us0, ue.name@).contains(x));
                    assert(x != id);
                }
            }
        }
        // invariant: promoted entries are linked
        assert forall|j: int| 0 <= j < es1.len() implies self.entry_linked(j) by {
            let e = es1[j];
            if j == i {
                assert(e.sid == id);
                let ids1 = user_ids_of(us1, u);
                assert(ids1[ids1.len() - 1] == id);
                assert(ids1.contains(id));
            } else {
                assert(es1[j] == es0[j]);
                if e.user is Some {
                    assert(pre.entry_linked(j));
                    if j < i {
                        assert(es0[j].sid != es0[i].sid);
                    } else {
                        assert(es0[i].sid != es0[j].sid);
                    }
                    let v = e.user->0@;
                    assert(pre.spec_by_user_contains(v, e.sid));
                    if v == u {
                        let ids0 = user_ids_of(us0, u);
                        let t = choose|t: int| 0 <= t < ids0.len() && ids0[t] == e.sid;
                        assert(user_ids_of(us1, u)[t] == e.sid);
                        assert(user_ids_of(us1, u).contains(e.sid));
                    } else {
                        assert(self.spec_user_ids(v) == pre.spec_user_ids(v));
                    }
                }
            }
        }
    }

    /// Looks a session up by id: exactly the stored session when the id is
    /// live, absent otherwise.
    pub fn get_connection(&self, session_id: usize) -> (r: Option<Session>)
        requires
            self.wf(),
        ensures
            r == if self.spec_has(session_id) {
                Some(self.spec_session(session_id))
            } else {
                None::<Session>
            },
    {
        let n = self.entries.len();
        let mut i: usize = 0;
        while i < n
            invariant
                n == self.entries.len(),
                i <= n,
                self.wf(),
                forall|j: int| 0 <= j < i ==> (#[trigger] self.entries@[j]).sid != session_id,
            decreases n - i,
        {
            if self.entries[i].sid == session_id {
                proof {
                    lemma_sid_idx(self.entries@, session_id, i as int);
                }
                return Some(self.entries[i].session);
            }
            i += 1;
        }
        assert(!self.spec_has(session_id));
        None
    }

    /// Returns the sessions of every live connection verified under
    /// `user_id`, in promotion order; the empty vector when the user has no
    /// live session.
    #[verifier::loop_isolation(false)]
    pub fn get_by_user(&self, user_id: &String) -> (r: Vec<Session>)
        requires
            self.wf(),
        ensures
            r@.len() == self.spec_user_ids(user_id@).len(),
            forall|k: int|
                0 <= k < r@.len() ==> r@[k] == self.spec_session(
                    #[trigger] self.spec_user_ids(user_id@)[k],
                ),
    {
        let m = self.users.len();
        let mut j: usize = 0;
        while j < m
            invariant
                j <= m,
                forall|t: int| 0 <= t < j ==> (#[trigger] self.users@[t]).name@ != user_id@,
            decreases m - j,
        {
            if self.users[j].name == *user_id {
                proof {
                    lemma_user_idx(self.users@, user_id@, j as int);
                    assert(self.user_entry_ok(j as int));
                }
                let ids = &self.users[j].ids;
                let cnt = ids.len();
                let mut r: Vec<Session> = Vec::new();
                let mut k: usize = 0;
                while k < cnt
                    invariant
                        k <= cnt,
                        cnt == ids@.len(),
                        r@.len() == k,
                        ids@ == self.spec_user_ids(user_id@),
                        forall|t: int|
                            0 <= t < k ==> r@[t] == self.spec_session(#[trigger] ids@[t]),
                    decreases cnt - k,
                {
                    let s_opt = self.get_connection(ids[k]);
                    r.push(s_opt.unwrap());
                    k += 1;
                }
                return r;
            }
            j += 1;
        }
        assert(!has_user(self.users@, user_id@));
        Vec::new()
    }
}

/// `by_user` never names a session id that `by_id` does not hold: in a
/// well-formed registry — and every operation takes a well-formed registry
/// to a well-formed registry — a session id recorded under a user is live,
/// and promoted under exactly that user.
pub proof fn lemma_by_user_within_by_id(m: ConnectionManager, u: Seq<char>, id: usize)
    requires
        m.wf(),
        m.spec_by_user_contains(u, id),
    ensures
        m.spec_has(id),
        m.spec_user_of(id) == Some(u),
{
    let us = m.users@;
    assert(has_user(us, u));
    let j = user_idx(us, u);
    assert(0 <= j < us.len() && us[j].name@ == u);
    assert(m.user_entry_ok(j));
    let t = choose|t: int| 0 <= t < us[j].ids@.len() && us[j].ids@[t] == id;
    assert(m.spec_has(us[j].ids@[t]));
}

/// Once a removal returns, the removed id is gone: a lookup by id reports
/// absent, and no user's record names it.
pub proof fn lemma_remove_clears(pre: ConnectionManager, post: ConnectionManager, id: usize)
    requires
        ConnectionManager::remove_effect(pre, id, post),
    ensures
        !post.spec_has(id),
        forall|u: Seq<char>| !(#[trigger] post.spec_user_ids(u)).contains(id),
{
    assert forall|u: Seq<char>| !(#[trigger] post.spec_user_ids(u)).contains(id) by {
        if post.spec_by_user_contains(u, id) {
            assert(pre.spec_by_user_contains(u, id) && id != id);
        }
    }
}

/// Promoting a session id that is not live is a no-op: the registry is
/// unchanged, and in particular no spurious user record appears.
pub proof fn lemma_promote_absent_noop(
    pre: ConnectionManager,
    post: ConnectionManager,
    u: Seq<char>,
    id: usize,
)
    requires
        !pre.spec_has(id),
        ConnectionManager::promote_effect(pre, u, id, post),
    ensures
        post == pre,
        forall|v: Seq<char>| post.spec_user_ids(v) == pre.spec_user_ids(v),
{
}

/// The add phase of a drain: applying any sequence of additions to an empty
/// registry leaves exactly the added ids live, and `by_user` still empty.
pub proof fn lemma_add_phase(
    states: Seq<ConnectionManager>,
    adds: Seq<usize>,
    sessions: Seq<Session>,
)
    requires
        states.len() == adds.len() + 1,
        sessions.len() == adds.len(),
        forall|id: usize| !states[0].spec_has(id),
        forall|u: Seq<char>| states[0].spec_user_ids(u) == Seq::<usize>::empty(),
        forall|k: int|
            0 <= k < adds.len() ==> ConnectionManager::add_effect(
                #[trigger] states[k],
                adds[k],
                sessions[k],
                states[k + 1],
            ),
    ensures
        forall|id: usize|
            #[trigger] states[adds.len() as int].spec_has(id) <==> adds.contains(id),
        forall|u: Seq<char>|
            states[adds.len() as int].spec_user_ids(u) == Seq::<usize>::empty(),
    decreases adds.len(),
{
    if adds.len() > 0 {
        let n = adds.len() as int;
        let tstates = states.take(n);
        let tadds = adds.take(n - 1);
        lemma_add_phase(tstates, tadds, sessions.take(n - 1));
        assert(tadds.len() == n - 1);
        let prev = states[n - 1];
        assert(tstates[tadds.len() as int] == prev);
        let last = states[n];
        assert(ConnectionManager::add_effect(prev, adds[n - 1], sessions[n - 1], last));
        assert forall|id: usize| #[trigger] last.spec_has(id) <==> adds.contains(id) by {
            assert(tstates[tadds.len() as int].spec_has(id) <==> tadds.contains(id));
            if id == adds[n - 1] {
                assert(adds.contains(id));
            } else {
                assert(last.spec_has(id) == prev.spec_has(id));
                if tadds.contains(id) {
                    let t = choose|t: int| 0 <= t < n - 1 && #[trigger] tadds[t] == id;
                    assert(adds[t] == id);
                    assert(adds.contains(id));
                }
                if adds.contains(id) {
                    let t = choose|t: int| 0 <= t < n && adds[t] == id;
                    assert(t != n - 1);
                    assert(tadds[t] == id);
                    assert(tadds.contains(id));
                }
            }
        }
        assert forall|u: Seq<char>| last.spec_user_ids(u) == Seq::<usize>::empty() by {
            assert(tstates[tadds.len() as int].spec_user_ids(u) == Seq::<usize>::empty());
            assert(!prev.spec_by_user_contains(u, adds[n - 1]));
        }
    }
}

/// The remove phase of a drain: if every live id is slated for removal and
/// `by_user` is empty, applying the removals empties the registry.
pub proof fn lemma_remove_phase(states: Seq<ConnectionManager>, rems: Seq<usize>)
    requires
        states.len() == rems.len() + 1,
        forall|id: usize| #[trigger] states[0].spec_has(id) ==> rems.contains(id),
        forall|u: Seq<char>| states[0].spec_user_ids(u) == Seq::<usize>::empty(),
        forall|k: int|
            0 <= k < rems.len() ==> ConnectionManager::remove_effect(
                #[trigger] states[k],
                rems[k],
                states[k + 1],
            ),
    ensures
        forall|id: usize| !(#[trigger] states[rems.len() as int].spec_has(id)),
        forall|u: Seq<char>|
            states[rems.len() as int].spec_user_ids(u) == Seq::<usize>::empty(),
    decreases rems.len(),
{
    if rems.len() == 0 {
        assert forall|id: usize| !(#[trigger] states[0].spec_has(id)) by {
            if states[0].spec_has(id) {
                assert(rems.contains(id));
            }
        }
    } else {
        let n = rems.len() as int;
        let s0 = states[0];
        let s1 = states[1];
        assert(ConnectionManager::remove_effect(s0, rems[0], s1));
        let states2 = states.subrange(1, n + 1);
        let rems2 = rems.subrange(1, n);
        assert forall|id: usize| #[trigger] states2[0].spec_has(id) implies rems2.contains(id) by {
            if s1.spec_has(id) {
                assert(id != rems[0]);
                assert(s0.spec_has(id));
                assert(rems.contains(id));
                let t = choose|t: int| 0 <= t < n && rems[t] == id;
                assert(t != 0);
                assert(rems2[t - 1] == id);
                assert(rems2.contains(id));
            }
        }
        assert forall|u: Seq<char>| states2[0].spec_user_ids(u) == Seq::<usize>::empty() by {
            assert(!s0.spec_by_user_contains(u, rems[0]));
        }
        assert forall|k: int|
            0 <= k < rems2.len() implies ConnectionManager::remove_effect(
            #[trigger] states2[k],
            rems2[k],
            states2[k + 1],
        ) by {
            assert(states2[k] == states[k + 1]);
            assert(states2[k + 1] == states[k + 2]);
            assert(rems2[k] == rems[k + 1]);
        }
        lemma_remove_phase(states2, rems2);
        assert(states2[rems2.len() as int] == states[n]);
    }
}

/// A full drain never loses or leaks an entry: starting from an empty
/// registry, any sequence of additions followed by removals that cover the
/// added ids — each phase in any order — leaves the registry empty. The
/// registry itself is sequential; when callers run the phases from
/// concurrent tasks, a lock serializes the steps into exactly such a
/// sequence.
pub proof fn lemma_drain_to_empty(
    states_add: Seq<ConnectionManager>,
    adds: Seq<usize>,
    sessions: Seq<Session>,
    states_rem: Seq<ConnectionManager>,
    rems: Seq<usize>,
)
    requires
        states_add.len() == adds.len() + 1,
        sessions.len() == adds.len(),
        forall|id: usize| !states_add[0].spec_has(id),
        forall|u: Seq<char>| states_add[0].spec_user_ids(u) == Seq::<usize>::empty(),
        forall|k: int|
            0 <= k < adds.len() ==> ConnectionManager::add_effect(
                #[trigger] states_add[k],
                adds[k],
                sessions[k],
                states_add[k + 1],
            ),
        states_rem.len() == rems.len() + 1,
        states_rem[0] == states_add[adds.len() as int],
        forall|id: usize| adds.contains(id) ==> rems.contains(id),
        forall|k: int|
            0 <= k < rems.len() ==> ConnectionManager::remove_effect(
                #[trigger] states_rem[k],
                rems[k],
                states_rem[k + 1],
            ),
    ensures
        forall|id: usize| !(#[trigger] states_rem[rems.len() as int].spec_has(id)),
        forall|u: Seq<char>|
            states_rem[rems.len() as int].spec_user_ids(u) == Seq::<usize>::empty(),
{
    lemma_add_phase(states_add, adds, sessions);
    lemma_remove_phase(states_rem, rems);
}

} // verus!

