//! The subscription document: a mapping from user identifiers to ordered
//! sequences of subscriptions, together with the idempotent add/remove
//! mutation that every request applies to it.
use vstd::prelude::*;

verus! {

/// One subscription: a calendar identifier and its display name.
pub struct Subscription {
    pub id: String,
    pub name: String,
}

/// All subscriptions of one user, keyed by the user identifier.
pub struct UserSubs {
    pub user: String,
    pub subs: Vec<Subscription>,
}

/// The whole document: one entry per user, in insertion order.
pub struct Document {
    pub users: Vec<UserSubs>,
}

/// Mathematical model of one subscription.
#[verifier::ext_equal]
pub ghost struct SubV {
    pub id: Seq<char>,
    pub name: Seq<char>,
}

/// Mathematical model of one user's entry.
#[verifier::ext_equal]
pub ghost struct UserV {
    pub user: Seq<char>,
    pub subs: Seq<SubV>,
}

impl View for Subscription {
    type V = SubV;

    open spec fn view(&self) -> SubV {
        SubV { id: self.id@, name: self.name@ }
    }
}

/// The model of a vector of subscriptions.
pub open spec fn subs_view(v: Seq<Subscription>) -> Seq<SubV> {
    v.map_values(|s: Subscription| s@)
}

/// The model of a vector of user entries.
pub open spec fn users_view(v: Seq<UserSubs>) -> Seq<UserV> {
    v.map_values(|u: UserSubs| u@)
}

impl View for UserSubs {
    type V = UserV;

    open spec fn view(&self) -> UserV {
        UserV { user: self.user@, subs: subs_view(self.subs@) }
    }
}

impl View for Document {
    type V = Seq<UserV>;

    open spec fn view(&self) -> Seq<UserV> {
        users_view(self.users@)
    }
}

/// The normalized mutation derived from a request: add a subscription
/// (with its display name) or remove one, keyed by user and id.
pub enum Action {
    Add(String),
    Remove,
}

/// A mutation intent: which user's list to change, which id, and how.
pub struct Intent {
    pub user: String,
    pub id: String,
    pub action: Action,
}

pub open spec fn has_user(d: Seq<UserV>, u: Seq<char>) -> bool {
    exists|i: int| 0 <= i < d.len() && d[i].user == u
}

/// The index of user `u` in `d`; meaningful only when `has_user(d, u)`.
pub open spec fn user_at(d: Seq<UserV>, u: Seq<char>) -> int {
    choose|i: int| 0 <= i < d.len() && d[i].user == u
}

pub open spec fn has_id(subs: Seq<SubV>, id: Seq<char>) -> bool {
    exists|j: int| 0 <= j < subs.len() && subs[j].id == id
}

/// The subscriptions of `subs` whose id is not `id`, order kept.
pub open spec fn remove_id(subs: Seq<SubV>, id: Seq<char>) -> Seq<SubV>
    decreases subs.len(),
{
    if subs.len() == 0 {
        Seq::empty()
    } else if subs[0].id == id {
        remove_id(subs.drop_first(), id)
    } else {
        seq![subs[0]] + remove_id(subs.drop_first(), id)
    }
}

/// A user's entry is well formed: never empty, and ids are unique.
pub open spec fn wf_subs(subs: Seq<SubV>) -> bool {
    &&& subs.len() > 0
    &&& forall|j: int, k: int| 0 <= j < k < subs.len() ==> subs[j].id != subs[k].id
}

/// The document invariant: user keys are unique, and no user persists
/// with an empty subscription list.
pub open spec fn wf_doc(d: Seq<UserV>) -> bool {
    &&& forall|i: int, j: int| 0 <= i < j < d.len() ==> d[i].user != d[j].user
    &&& forall|i: int| 0 <= i < d.len() ==> wf_subs(#[trigger] d[i].subs)
}

/// Adding `{id, name}` under `u`: a duplicate id is a no-op; a known user
/// gets the entry appended; a new user is appended with a one-entry list.
pub open spec fn add_sub(d: Seq<UserV>, u: Seq<char>, id: Seq<char>, name: Seq<char>) -> Seq<
    UserV,
> {
    if !has_user(d, u) {
        d.push(UserV { user: u, subs: seq![SubV { id, name }] })
    } else {
        let i = user_at(d, u);
        if has_id(d[i].subs, id) {
            d
        } else {
            d.update(i, UserV { user: u, subs: d[i].subs.push(SubV { id, name }) })
        }
    }
}

/// Removing `id` under `u`: an unknown user is a no-op; a list that
/// becomes empty takes the user's key with it.
pub open spec fn remove_sub(d: Seq<UserV>, u: Seq<char>, id: Seq<char>) -> Seq<UserV> {
    if !has_user(d, u) {
        d
    } else {
        let i = user_at(d, u);
        let rs = remove_id(d[i].subs, id);
        if rs.len() == 0 {
            d.remove(i)
        } else {
            d.update(i, UserV { user: u, subs: rs })
        }
    }
}

/// What applying an intent means for the document model.
pub open spec fn apply_spec(d: Seq<UserV>, intent: Intent) -> Seq<UserV> {
    match intent.action {
        Action::Add(name) => add_sub(d, intent.user@, intent.id@, name@),
        Action::Remove => remove_sub(d, intent.user@, intent.id@),
    }
}

/// `remove_id` keeps a subsequence of the input: nothing with the removed
/// id remains, everything kept comes from the input, uniqueness of ids is
/// preserved, and nothing changes when the id was absent.
pub proof fn lemma_remove_id_props(subs: Seq<SubV>, id: Seq<char>)
    ensures
        remove_id(subs, id).len() <= subs.len(),
        forall|j: int|
            0 <= j < remove_id(subs, id).len() ==> (#[trigger] remove_id(subs, id)[j]).id != id,
        forall|j: int|
            0 <= j < remove_id(subs, id).len() ==> subs.contains(#[trigger] remove_id(subs, id)[j]),
        (forall|j: int, k: int| 0 <= j < k < subs.len() ==> subs[j].id != subs[k].id) ==> (forall|
            j: int,
            k: int,
        |
            0 <= j < k < remove_id(subs, id).len() ==> remove_id(subs, id)[j].id != remove_id(
                subs,
                id,
            )[k].id),
        !has_id(subs, id) ==> remove_id(subs, id) == subs,
        has_id(subs, id) ==> remove_id(subs, id).len() < subs.len(),
    decreases subs.len(),
{
    if subs.len() == 0 {
        assert(remove_id(subs, id) =~= subs);
    } else {
        let rest = subs.drop_first();
        lemma_remove_id_props(rest, id);
        let r = remove_id(subs, id);
        assert(forall|j: int| 0 <= j < rest.len() ==> rest[j] == subs[j + 1]);
        if subs[0].id == id {
            assert(has_id(subs, id));
            assert(forall|j: int|
                0 <= j < r.len() ==> rest.contains(#[trigger] r[j]) ==> subs.contains(r[j]));
        } else {
            let rr = remove_id(rest, id);
            assert(r == seq![subs[0]] + rr);
            assert(r[0] == subs[0]);
            assert(forall|j: int| 1 <= j < r.len() ==> r[j] == rr[j - 1]);
            assert(subs.contains(subs[0]));
            assert(forall|j: int|
                1 <= j < r.len() ==> rest.contains(#[trigger] r[j]) ==> subs.contains(r[j]));
            if forall|j: int, k: int| 0 <= j < k < subs.len() ==> subs[j].id != subs[k].id {
                assert(forall|j: int, k: int| 0 <= j < k < rest.len() ==> rest[j].id != rest[k].id);
                assert forall|j: int, k: int| 0 <= j < k < r.len() implies r[j].id != r[k].id by {
                    if j == 0 {
                        let x = r[k];
                        assert(rest.contains(x));
                        let m = choose|m: int| 0 <= m < rest.len() && rest[m] == x;
                        assert(subs[m + 1] == x);
                        assert(subs[0].id != subs[m + 1].id);
                    }
                }
            }
            if !has_id(subs, id) {
                assert(!has_id(rest, id)) by {
                    assert(forall|j: int|
                        0 <= j < rest.len() ==> (#[trigger] rest[j]).id == subs[j + 1].id);
                }
                assert(r =~= subs);
            }
            if has_id(subs, id) {
                assert(has_id(rest, id)) by {
                    let j = choose|j: int| 0 <= j < subs.len() && subs[j].id == id;
                    assert(rest[j - 1].id == id);
                }
            }
        }
    }
}

/// The chosen index of a present user is a real index with that user.
pub proof fn lemma_user_at(d: Seq<UserV>, u: Seq<char>)
    requires
        has_user(d, u),
    ensures
        0 <= user_at(d, u) < d.len(),
        d[user_at(d, u)].user == u,
{
}

/// With unique user keys, any index holding `u` is the chosen one.
pub proof fn lemma_user_at_unique(d: Seq<UserV>, u: Seq<char>, i: int)
    requires
        forall|x: int, y: int| 0 <= x < y < d.len() ==> d[x].user != d[y].user,
        0 <= i < d.len(),
        d[i].user == u,
    ensures
        has_user(d, u),
        user_at(d, u) == i,
{
    assert(has_user(d, u));
    lemma_user_at(d, u);
}

/// The document invariant survives an add: user keys stay unique, every
/// list stays non-empty with unique ids.
pub proof fn lemma_add_wf(d: Seq<UserV>, u: Seq<char>, id: Seq<char>, name: Seq<char>)
    requires
        wf_doc(d),
    ensures
        wf_doc(add_sub(d, u, id, name)),
{
    let r = add_sub(d, u, id, name);
    if !has_user(d, u) {
        assert(forall|i: int| 0 <= i < d.len() ==> (#[trigger] d[i]).user != u);
        assert(wf_subs(r[d.len() as int].subs));
    } else {
        let i = user_at(d, u);
        lemma_user_at(d, u);
        if !has_id(d[i].subs, id) {
            let ns = d[i].subs.push(SubV { id, name });
            assert(forall|j: int| 0 <= j < d[i].subs.len() ==> ns[j] == d[i].subs[j]);
            assert(forall|j: int, k: int| 0 <= j < k < ns.len() ==> ns[j].id != ns[k].id);
            assert(wf_subs(ns));
        }
    }
}

/// The document invariant survives a remove, including the cleanup of a
/// user whose list became empty.
pub proof fn lemma_remove_wf(d: Seq<UserV>, u: Seq<char>, id: Seq<char>)
    requires
        wf_doc(d),
    ensures
        wf_doc(remove_sub(d, u, id)),
{
    if has_user(d, u) {
        let i = user_at(d, u);
        lemma_user_at(d, u);
        lemma_remove_id_props(d[i].subs, id);
        let rs = remove_id(d[i].subs, id);
        if rs.len() == 0 {
            let r = d.remove(i);
            assert(forall|j: int| 0 <= j < i ==> #[trigger] r[j] == d[j]);
            assert(forall|j: int| i <= j < r.len() ==> #[trigger] r[j] == d[j + 1]);
        } else {
            assert(wf_subs(rs));
        }
    }
}

/// Applying the same intent twice yields the same document as applying it
/// once: a duplicate add is a no-op, and removing what is already gone
/// leaves the document alone.
pub proof fn lemma_apply_idempotent(d: Seq<UserV>, intent: Intent)
    requires
        wf_doc(d),
    ensures
        apply_spec(apply_spec(d, intent), intent) == apply_spec(d, intent),
{
    let u = intent.user@;
    let id = intent.id@;
    match intent.action {
        Action::Add(name) => {
            lemma_add_wf(d, u, id, name@);
            let d1 = add_sub(d, u, id, name@);
            if !has_user(d, u) {
                let i = d.len() as int;
                assert(d1[i].user == u);
                lemma_user_at_unique(d1, u, i);
                assert(d1[i].subs[0].id == id);
                assert(has_id(d1[i].subs, id));
            } else {
                let i = user_at(d, u);
                lemma_user_at(d, u);
                if has_id(d[i].subs, id) {
                    assert(d1 == d);
                } else {
                    assert(d1[i].user == u);
                    lemma_user_at_unique(d1, u, i);
                    let ns = d[i].subs.push(SubV { id, name: name@ });
                    assert(ns[ns.len() - 1].id == id);
                    assert(has_id(d1[i].subs, id));
                }
            }
        },
        Action::Remove => {
            lemma_remove_wf(d, u, id);
            let d1 = remove_sub(d, u, id);
            if has_user(d, u) {
                let i = user_at(d, u);
                lemma_user_at(d, u);
                lemma_remove_id_props(d[i].subs, id);
                let rs = remove_id(d[i].subs, id);
                if rs.len() == 0 {
                    assert(!has_user(d1, u)) by {
                        assert(forall|j: int| 0 <= j < i ==> #[trigger] d1[j] == d[j]);
                        assert(forall|j: int| i <= j < d1.len() ==> #[trigger] d1[j] == d[j + 1]);
                        assert(forall|j: int|
                            0 <= j < d1.len() ==> (#[trigger] d1[j]).user != u);
                    }
                } else {
                    assert(d1[i].user == u);
                    lemma_user_at_unique(d1, u, i);
                    assert(!has_id(rs, id));
                    lemma_remove_id_props(rs, id);
                    assert(remove_id(d1[i].subs, id) == rs);
                    assert(d1.update(i, UserV { user: u, subs: rs }) =~= d1) by {
                        assert(d1[i] =~= UserV { user: u, subs: rs });
                    }
                }
            }
        },
    }
}

/// Removing an id that is not present (or from an unknown user) returns
/// the document unchanged.
pub proof fn lemma_remove_no_match(d: Seq<UserV>, u: Seq<char>, id: Seq<char>)
    requires
        wf_doc(d),
        has_user(d, u) ==> !has_id(d[user_at(d, u)].subs, id),
    ensures
        remove_sub(d, u, id) == d,
{
    if has_user(d, u) {
        let i = user_at(d, u);
        lemma_user_at(d, u);
        lemma_remove_id_props(d[i].subs, id);
        let rs = remove_id(d[i].subs, id);
        assert(rs == d[i].subs);
        assert(rs.len() > 0);
        assert(d.update(i, UserV { user: u, subs: rs }) =~= d) by {
            assert(d[i] =~= UserV { user: u, subs: rs });
        }
    }
}

/// After a remove, the user's key is present exactly when entries remain:
/// a remove that empties a user's list takes the key with it, and never
/// leaves an empty list behind.
pub proof fn lemma_remove_cleanup(d: Seq<UserV>, u: Seq<char>, id: Seq<char>)
    requires
        wf_doc(d),
    ensures
        has_user(remove_sub(d, u, id), u) <==> (has_user(d, u) && remove_id(
            d[user_at(d, u)].subs,
            id,
        ).len() != 0),
{
    if has_user(d, u) {
        let i = user_at(d, u);
        lemma_user_at(d, u);
        let rs = remove_id(d[i].subs, id);
        let d1 = remove_sub(d, u, id);
        if rs.len() == 0 {
            assert(forall|j: int| 0 <= j < i ==> #[trigger] d1[j] == d[j]);
            assert(forall|j: int| i <= j < d1.len() ==> #[trigger] d1[j] == d[j + 1]);
            assert(forall|j: int| 0 <= j < d1.len() ==> (#[trigger] d1[j]).user != u);
        } else {
            assert(d1[i].user == u);
        }
    }
}

/// `remove_id` over a sequence grown by one element at the end.
pub proof fn lemma_remove_id_push(prefix: Seq<SubV>, x: SubV, id: Seq<char>)
    ensures
        remove_id(prefix.push(x), id) == remove_id(prefix, id) + (if x.id == id {
            Seq::<SubV>::empty()
        } else {
            seq![x]
        }),
    decreases prefix.len(),
{
    let p = prefix.push(x);
    if prefix.len() == 0 {
        assert(p[0] == x);
        assert(p.drop_first() =~= Seq::<SubV>::empty());
        assert(remove_id(p.drop_first(), id) == Seq::<SubV>::empty());
        assert(remove_id(prefix, id) == Seq::<SubV>::empty());
        if x.id == id {
            assert(remove_id(p, id) =~= remove_id(prefix, id));
        } else {
            assert(remove_id(p, id) == seq![p[0]] + remove_id(p.drop_first(), id));
            assert(remove_id(p, id) =~= remove_id(prefix, id) + seq![x]);
        }
    } else {
        lemma_remove_id_push(prefix.drop_first(), x, id);
        assert(p[0] == prefix[0]);
        assert(p.drop_first() =~= prefix.drop_first().push(x));
        assert(remove_id(p.drop_first(), id) == remove_id(prefix.drop_first(), id) + (if x.id
            == id {
            Seq::<SubV>::empty()
        } else {
            seq![x]
        }));
        if prefix[0].id == id {
            assert(remove_id(p, id) == remove_id(p.drop_first(), id));
            assert(remove_id(prefix, id) == remove_id(prefix.drop_first(), id));
            if x.id == id {
                assert(remove_id(p, id) =~= remove_id(prefix, id));
            } else {
                assert(remove_id(p, id) =~= remove_id(prefix, id) + seq![x]);
            }
        } else {
            assert(remove_id(p, id) == seq![p[0]] + remove_id(p.drop_first(), id));
            assert(remove_id(prefix, id) == seq![prefix[0]] + remove_id(prefix.drop_first(), id));
            if x.id == id {
                assert(remove_id(p, id) =~= remove_id(prefix, id));
            } else {
                assert(remove_id(p, id) =~= remove_id(prefix, id) + seq![x]);
            }
        }
    }
}

fn clone_sub(s: &Subscription) -> (r: Subscription)
    ensures
        r@ == s@,
{
    Subscription { id: s.id.clone(), name: s.name.clone() }
}

fn clone_subs(v: &Vec<Subscription>) -> (r: Vec<Subscription>)
    ensures
        subs_view(r@) == subs_view(v@),
{
    let mut r: Vec<Subscription> = Vec::new();
    let mut k: usize = 0;
    while k < v.len()
        invariant
            k <= v.len(),
            r@.len() == k,
            forall|j: int| 0 <= j < k ==> (#[trigger] r@[j])@ == v@[j]@,
        decreases v.len() - k,
    {
        r.push(clone_sub(&v[k]));
        k += 1;
    }
    proof {
        assert(subs_view(r@) =~= subs_view(v@));
    }
    r
}

fn clone_user(u: &UserSubs) -> (r: UserSubs)
    ensures
        r@ == u@,
{
    UserSubs { user: u.user.clone(), subs: clone_subs(&u.subs) }
}

fn clone_users(v: &Vec<UserSubs>) -> (r: Vec<UserSubs>)
    ensures
        users_view(r@) == users_view(v@),
{
    let mut r: Vec<UserSubs> = Vec::new();
    let mut k: usize = 0;
    while k < v.len()
        invariant
            k <= v.len(),
            r@.len() == k,
            forall|j: int| 0 <= j < k ==> (#[trigger] r@[j])@ == v@[j]@,
        decreases v.len() - k,
    {
        r.push(clone_user(&v[k]));
        k += 1;
    }
    proof {
        assert(users_view(r@) =~= users_view(v@));
    }
    r
}

/// A semantically equal copy of a document.
pub fn clone_doc(d: &Document) -> (r: Document)
    ensures
        r@ == d@,
{
    Document { users: clone_users(&d.users) }
}

fn find_user(d: &Document, user: &String) -> (r: Option<usize>)
    ensures
        match r {
            Some(i) => i < d@.len() && d@[i as int].user == user@,
            None => !has_user(d@, user@),
        },
{
    let mut k: usize = 0;
    while k < d.users.len()
        invariant
            k <= d.users.len(),
            forall|j: int| 0 <= j < k ==> (#[trigger] d@[j]).user != user@,
        decreases d.users.len() - k,
    {
        if d.users[k].user == *user {
            return Some(k);
        }
        k += 1;
    }
    None
}

fn find_id(subs: &Vec<Subscription>, id: &String) -> (r: Option<usize>)
    ensures
        match r {
            Some(j) => j < subs@.len() && subs_view(subs@)[j as int].id == id@,
            None => !has_id(subs_view(subs@), id@),
        },
{
    let mut k: usize = 0;
    while k < subs.len()
        invariant
            k <= subs.len(),
            forall|j: int| 0 <= j < k ==> (#[trigger] subs_view(subs@)[j]).id != id@,
        decreases subs.len() - k,
    {
        if subs[k].id == *id {
            return Some(k);
        }
        k += 1;
    }
    None
}

/// Apply a mutation intent to a well-formed document, returning the new
/// document. Pure: the input document is untouched. Adding an id a user
/// already has, or removing one it does not, is a no-op, never an error;
/// a remove that empties a user's list drops the user's key.
pub fn apply(d: &Document, intent: &Intent) -> (r: Document)
    requires
        wf_doc(d@),
    ensures
        r@ == apply_spec(d@, *intent),
        wf_doc(r@),
{
    let ghost dv = d@;
    match &intent.action {
        Action::Add(name) => {
            proof {
                lemma_add_wf(dv, intent.user@, intent.id@, name@);
            }
            match find_user(d, &intent.user) {
                None => {
                    let mut users = clone_users(&d.users);
                    let mut subs: Vec<Subscription> = Vec::new();
                    subs.push(Subscription { id: intent.id.clone(), name: name.clone() });
                    users.push(UserSubs { user: intent.user.clone(), subs });
                    let r = Document { users };
                    proof {
                        assert(r@ =~~= dv.push(
                            UserV {
                                user: intent.user@,
                                subs: seq![SubV { id: intent.id@, name: name@ }],
                            },
                        ));
                    }
                    r
                },
                Some(i) => {
                    proof {
                        lemma_user_at_unique(dv, intent.user@, i as int);
                    }
                    match find_id(&d.users[i].subs, &intent.id) {
                        Some(_) => {
                            let r = clone_doc(d);
                            proof {
                                assert(has_id(dv[i as int].subs, intent.id@));
                            }
                            r
                        },
                        None => {
                            let mut users = clone_users(&d.users);
                            let mut entry = users.remove(i);
                            entry.subs.push(
                                Subscription { id: intent.id.clone(), name: name.clone() },
                            );
                            let ghost mid = users@;
                            users.insert(i, entry);
                            let r = Document { users };
                            proof {
                                assert(entry@.subs =~~= dv[i as int].subs.push(
                                    SubV { id: intent.id@, name: name@ },
                                ));
                                assert(r@ =~~= dv.update(
                                    i as int,
                                    UserV { user: intent.user@, subs: entry@.subs },
                                ));
                            }
                            r
                        },
                    }
                },
            }
        },
        Action::Remove => {
            proof {
                lemma_remove_wf(dv, intent.user@, intent.id@);
            }
            match find_user(d, &intent.user) {
                None => clone_doc(d),
                Some(i) => {
                    proof {
                        lemma_user_at_unique(dv, intent.user@, i as int);
                    }
                    let ghost sv = dv[i as int].subs;
                    let mut kept: Vec<Subscription> = Vec::new();
                    let mut k: usize = 0;
                    while k < d.users[i].subs.len()
                        invariant
                            i < d.users@.len(),
                            dv == d@,
                            sv == dv[i as int].subs,
                            k <= sv.len(),
                            subs_view(kept@) == remove_id(sv.subrange(0, k as int), intent.id@),
                        decreases sv.len() - k,
                    {
                        proof {
                            lemma_remove_id_push(
                                sv.subrange(0, k as int),
                                sv[k as int],
                                intent.id@,
                            );
                            assert(sv.subrange(0, k as int + 1) =~= sv.subrange(
                                0,
                                k as int,
                            ).push(sv[k as int]));
                        }
                        let s = &d.users[i].subs[k];
                        if !(s.id == intent.id) {
                            kept.push(clone_sub(s));
                            proof {
                                assert(subs_view(kept@) =~= remove_id(
                                    sv.subrange(0, k as int + 1),
                                    intent.id@,
                                ));
                            }
                        }
                        k += 1;
                    }
                    proof {
                        assert(sv.subrange(0, sv.len() as int) =~= sv);
                    }
                    if kept.len() == 0 {
                        let mut users = clone_users(&d.users);
                        users.remove(i);
                        let r = Document { users };
                        proof {
                            assert(r@ =~~= dv.remove(i as int));
                        }
                        r
                    } else {
                        let mut users = clone_users(&d.users);
                        let entry = users.remove(i);
                        users.insert(i, UserSubs { user: entry.user, subs: kept });
                        let r = Document { users };
                        proof {
                            assert(r@ =~~= dv.update(
                                i as int,
                                UserV { user: intent.user@, subs: remove_id(sv, intent.id@) },
                            ));
                        }
                        r
                    }
                },
            }
        },
    }
}

} // verus!



