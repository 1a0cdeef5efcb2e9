//! Users of the marketplace: profiles with ratings kept as averages scaled by
//! a thousand, and the set of tags users may pick skills from.

use vstd::prelude::*;
use crate::dispatch::{DispatchError, Origin, ensure_signed};
use crate::ledger::AccountId;
use crate::table::Table;

verus! {

/// Ratings are kept multiplied by this factor.
pub const RATING_SCALE: u32 = 1000;

/// Whether two byte strings are equal.
pub fn bytes_eq(a: &Vec<u8>, b: &Vec<u8>) -> (r: bool)
    ensures
        r == (a@ == b@),
{
    if a.len() != b.len() {
        return false;
    }
    let mut i: usize = 0;
    while i < a.len()
        invariant
            a@.len() == b@.len(),
            i <= a@.len(),
            forall|j: int| 0 <= j < i ==> a@[j] == b@[j],
        decreases a@.len() - i,
    {
        if a[i] != b[i] {
            return false;
        }
        i = i + 1;
    }
    assert(a@ =~= b@);
    true
}

/// A copy of a byte string.
pub fn copy_bytes(v: &Vec<u8>) -> (c: Vec<u8>)
    ensures
        c@ == v@,
{
    let mut c: Vec<u8> = Vec::new();
    let mut i: usize = 0;
    while i < v.len()
        invariant
            i <= v@.len(),
            c@ == v@.take(i as int),
        decreases v@.len() - i,
    {
        c.push(v[i]);
        assert(v@.take(i + 1) =~= v@.take(i as int).push(v@[i as int]));
        i = i + 1;
    }
    assert(v@.take(i as int) =~= v@);
    c
}

/// The contents of a list of byte strings.
pub open spec fn strings_of(s: Seq<Vec<u8>>) -> Set<Seq<u8>> {
    Set::new(|t: Seq<u8>| exists|i: int| 0 <= i < s.len() && #[trigger] s[i]@ == t)
}

/// A set of tags, each a byte string.
pub struct TagSet {
    items: Vec<Vec<u8>>,
}

impl View for TagSet {
    type V = Set<Seq<u8>>;

    closed spec fn view(&self) -> Set<Seq<u8>> {
        strings_of(self.items@)
    }
}

impl TagSet {
    #[verifier::type_invariant]
    closed spec fn distinct(self) -> bool {
        forall|i: int, j: int| 0 <= i < self.items@.len() && 0 <= j < self.items@.len() && i != j
            ==> self.items@[i]@ != self.items@[j]@
    }

    /// The empty set.
    pub fn new() -> (t: Self)
        ensures
            t@ == Set::<Seq<u8>>::empty(),
    {
        let t = TagSet { items: Vec::new() };
        assert(t@ =~= Set::<Seq<u8>>::empty());
        t
    }

    /// Number of tags.
    pub fn len(&self) -> (n: usize)
        ensures
            n == self@.len(),
    {
        proof {
            use_type_invariant(self);
            self.lemma_len();
        }
        self.items.len()
    }

    proof fn lemma_len(&self)
        requires
            self.distinct(),
        ensures
            self@.finite(),
            self@.len() == self.items@.len(),
        decreases self.items@.len(),
    {
        let s = self.items@;
        let views = Seq::new(s.len(), |i: int| s[i]@);
        assert(views.no_duplicates());
        assert(self@ =~= views.to_set()) by {
            assert forall|t: Seq<u8>| #[trigger] self@.contains(t) == views.to_set().contains(t) by {
                if self@.contains(t) {
                    let i = choose|i: int| 0 <= i < s.len() && s[i]@ == t;
                    assert(views[i] == t);
                }
                if views.to_set().contains(t) {
                    let i = choose|i: int| 0 <= i < views.len() && views[i] == t;
                    assert(s[i]@ == t);
                }
            }
        }
        views.unique_seq_to_set();
    }

    /// Whether `tag` is in the set.
    pub fn contains(&self, tag: &Vec<u8>) -> (b: bool)
        ensures
            b == self@.contains(tag@),
    {
        let mut i: usize = 0;
        while i < self.items.len()
            invariant
                i <= self.items@.len(),
                forall|j: int| 0 <= j < i ==> self.items@[j]@ != tag@,
            decreases self.items@.len() - i,
        {
            if bytes_eq(&self.items[i], tag) {
                return true;
            }
            i = i + 1;
        }
        false
    }

    /// Adds `tag` to the set.
    pub fn insert(&mut self, tag: Vec<u8>)
        ensures
            final(self)@ == old(self)@.insert(tag@),
    {
        proof {
            use_type_invariant(&*self);
        }
        if self.contains(&tag) {
            assert(old(self)@.insert(tag@) =~= old(self)@);
            return;
        }
        let ghost before = self.items@;
        let mut items: Vec<Vec<u8>> = Vec::new();
        std::mem::swap(&mut items, &mut self.items);
        items.push(tag);
        proof {
            assert forall|i: int, j: int| 0 <= i < items@.len() && 0 <= j < items@.len() && i != j implies items@[i]@ != items@[j]@ by {
                if i < before.len() && j < before.len() {
                    assert(items@[i] == before[i] && items@[j] == before[j]);
                } else if i == before.len() {
                    assert(items@[j] == before[j]);
                } else {
                    assert(items@[i] == before[i]);
                }
            }
        }
        self.items = items;
        proof {
            assert forall|t: Seq<u8>| #[trigger] self@.contains(t) == old(self)@.insert(tag@).contains(t) by {
                if old(self)@.contains(t) {
                    let i = choose|i: int| 0 <= i < before.len() && before[i]@ == t;
                    assert(self.items@[i] == before[i]);
                }
                if t == tag@ {
                    assert(self.items@[before.len() as int]@ == t);
                }
                if self@.contains(t) && t != tag@ {
                    let i = choose|i: int| 0 <= i < self.items@.len() && self.items@[i]@ == t;
                    assert(i < before.len());
                    assert(before[i] == self.items@[i]);
                }
            }
            assert(self@ =~= old(self)@.insert(tag@));
        }
    }

    /// A copy of the set.
    pub fn duplicate(&self) -> (t: Self)
        ensures
            t@ == self@,
    {
        let mut t = TagSet::new();
        let mut i: usize = 0;
        while i < self.items.len()
            invariant
                i <= self.items@.len(),
                t@ == strings_of(self.items@.take(i as int)),
            decreases self.items@.len() - i,
        {
            let ghost before = t@;
            t.insert(copy_bytes(&self.items[i]));
            proof {
                lemma_strings_of_take(self.items@, i as int);
            }
            i = i + 1;
        }
        assert(self.items@.take(i as int) =~= self.items@);
        t
    }
}

/// A user's profile.
pub struct User {
    pub name: Vec<u8>,
    pub email: Vec<u8>,
    pub phone_number: Vec<u8>,
    total_work_as_worker: u32,
    rating_as_worker: Option<u32>,
    total_work_as_publisher: u32,
    rating_as_publisher: Option<u32>,
    overall_rating: Option<u32>,
    tags: TagSet,
}

/// A user's profile as mathematical values.
pub struct UserView {
    pub name: Seq<u8>,
    pub email: Seq<u8>,
    pub phone_number: Seq<u8>,
    pub total_work_as_worker: u32,
    pub rating_as_worker: Option<u32>,
    pub total_work_as_publisher: u32,
    pub rating_as_publisher: Option<u32>,
    pub overall_rating: Option<u32>,
    pub tags: Set<Seq<u8>>,
}

impl View for User {
    type V = UserView;

    closed spec fn view(&self) -> UserView {
        UserView {
            name: self.name@,
            email: self.email@,
            phone_number: self.phone_number@,
            total_work_as_worker: self.total_work_as_worker,
            rating_as_worker: self.rating_as_worker,
            total_work_as_publisher: self.total_work_as_publisher,
            rating_as_publisher: self.rating_as_publisher,
            overall_rating: self.overall_rating,
            tags: self.tags@,
        }
    }
}

/// The profile of a user that has none yet.
pub open spec fn default_user() -> UserView {
    UserView {
        name: Seq::empty(),
        email: Seq::empty(),
        phone_number: Seq::empty(),
        total_work_as_worker: 0,
        rating_as_worker: None,
        total_work_as_publisher: 0,
        rating_as_publisher: None,
        overall_rating: None,
        tags: Set::empty(),
    }
}

/// The overall rating: the mean of the worker and publisher ratings when both
/// exist, else the one that exists.
pub open spec fn overall_of(w: Option<u32>, p: Option<u32>) -> Option<u32> {
    match (w, p) {
        (None, None) => None,
        (None, Some(p)) => Some(p),
        (Some(w), None) => Some(w),
        (Some(w), Some(p)) => Some(((w + p) / 2) as u32),
    }
}

/// A running average after one more rating `r` (out of five, scaled by a
/// thousand): the first rating sets it, later ones are averaged in with the
/// count of ratings so far, rounding down.
pub open spec fn averaged_in(total: u32, rating: Option<u32>, r: u8) -> Option<u32> {
    match rating {
        None => Some((r * RATING_SCALE) as u32),
        Some(x) => Some(((total * x + r * RATING_SCALE) / (total + 1)) as u32),
    }
}

/// Averaging `r` into `(total, rating)` and then taking the mean with `other`
/// fits in `u32`.
pub open spec fn average_fits(total: u32, rating: Option<u32>, r: u8, other: Option<u32>) -> bool {
    &&& total < u32::MAX
    &&& rating matches Some(x) ==> total * x + r * RATING_SCALE <= u32::MAX
    &&& rating is None ==> r * RATING_SCALE <= u32::MAX
    &&& other matches Some(p) ==> averaged_in(total, rating, r).unwrap() + p <= u32::MAX
}

/// `u` after being rated `r` as a worker.
pub open spec fn rated_as_worker(u: UserView, r: u8) -> UserView {
    let w = averaged_in(u.total_work_as_worker, u.rating_as_worker, r);
    UserView {
        total_work_as_worker: (u.total_work_as_worker + 1) as u32,
        rating_as_worker: w,
        overall_rating: overall_of(w, u.rating_as_publisher),
        ..u
    }
}

/// `u` after being rated `r` as a publisher.
pub open spec fn rated_as_publisher(u: UserView, r: u8) -> UserView {
    let p = averaged_in(u.total_work_as_publisher, u.rating_as_publisher, r);
    UserView {
        total_work_as_publisher: (u.total_work_as_publisher + 1) as u32,
        rating_as_publisher: p,
        overall_rating: overall_of(u.rating_as_worker, p),
        ..u
    }
}

impl User {
    /// An empty profile.
    pub fn default() -> (u: Self)
        ensures
            u@ == default_user(),
    {
        User {
            name: Vec::new(),
            email: Vec::new(),
            phone_number: Vec::new(),
            total_work_as_worker: 0,
            rating_as_worker: None,
            total_work_as_publisher: 0,
            rating_as_publisher: None,
            overall_rating: None,
            tags: TagSet::new(),
        }
    }

    /// A copy of the profile.
    pub fn duplicate(&self) -> (u: Self)
        ensures
            u@ == self@,
    {
        User {
            name: copy_bytes(&self.name),
            email: copy_bytes(&self.email),
            phone_number: copy_bytes(&self.phone_number),
            total_work_as_worker: self.total_work_as_worker,
            rating_as_worker: self.rating_as_worker,
            total_work_as_publisher: self.total_work_as_publisher,
            rating_as_publisher: self.rating_as_publisher,
            overall_rating: self.overall_rating,
            tags: self.tags.duplicate(),
        }
    }

    /// Averages a rating received as a worker into the profile.
    pub fn update_worker_rating(&mut self, new_rating: u8)
        requires
            average_fits(old(self)@.total_work_as_worker, old(self)@.rating_as_worker, new_rating, old(self)@.rating_as_publisher),
        ensures
            final(self)@ == rated_as_worker(old(self)@, new_rating),
    {
        match self.rating_as_worker {
            None => {
                self.total_work_as_worker = self.total_work_as_worker + 1;
                self.rating_as_worker = Some(new_rating as u32 * RATING_SCALE);
            },
            Some(rating) => {
                let ghost t = self.total_work_as_worker;
                let total_rating = self.total_work_as_worker * rating + new_rating as u32 * RATING_SCALE;
                self.total_work_as_worker = self.total_work_as_worker + 1;
                let avg_rating = total_rating / self.total_work_as_worker;
                assert(avg_rating == averaged_in(t, Some(rating), new_rating).unwrap());
                self.rating_as_worker = Some(avg_rating);
            },
        }
        assert(self.rating_as_worker == averaged_in(old(self)@.total_work_as_worker, old(self)@.rating_as_worker, new_rating));
        self.update_overall_rating();
    }

    /// Averages a rating received as a publisher into the profile.
    pub fn update_publisher_rating(&mut self, new_rating: u8)
        requires
            average_fits(old(self)@.total_work_as_publisher, old(self)@.rating_as_publisher, new_rating, old(self)@.rating_as_worker),
        ensures
            final(self)@ == rated_as_publisher(old(self)@, new_rating),
    {
        match self.rating_as_publisher {
            None => {
                self.total_work_as_publisher = self.total_work_as_publisher + 1;
                self.rating_as_publisher = Some(new_rating as u32 * RATING_SCALE);
            },
            Some(rating) => {
                let ghost t = self.total_work_as_publisher;
                let total_rating = self.total_work_as_publisher * rating + new_rating as u32 * RATING_SCALE;
                self.total_work_as_publisher = self.total_work_as_publisher + 1;
                let avg_rating = total_rating / self.total_work_as_publisher;
                assert(avg_rating == averaged_in(t, Some(rating), new_rating).unwrap());
                self.rating_as_publisher = Some(avg_rating);
            },
        }
        assert(self.rating_as_publisher == averaged_in(old(self)@.total_work_as_publisher, old(self)@.rating_as_publisher, new_rating));

        self.update_overall_rating();
    }

    /// The average rating as a worker, scaled by a thousand.
    pub fn get_worker_rating(&self) -> (r: Option<u32>)
        ensures
            r == self@.rating_as_worker,
    {
        self.rating_as_worker
    }

    /// The average rating as a publisher, scaled by a thousand.
    pub fn get_publisher_rating(&self) -> (r: Option<u32>)
        ensures
            r == self@.rating_as_publisher,
    {
        self.rating_as_publisher
    }

    /// The overall rating, scaled by a thousand.
    pub fn get_overall_rating(&self) -> (r: Option<u32>)
        ensures
            r == self@.overall_rating,
    {
        self.overall_rating
    }

    /// The number of ratings received as a worker and as a publisher.
    pub fn get_work_counts(&self) -> (r: (u32, u32))
        ensures
            r == (self@.total_work_as_worker, self@.total_work_as_publisher),
    {
        (self.total_work_as_worker, self.total_work_as_publisher)
    }

    /// Whether the user has picked `tag`.
    pub fn has_tag(&self, tag: &Vec<u8>) -> (b: bool)
        ensures
            b == self@.tags.contains(tag@),
    {
        self.tags.contains(tag)
    }

    /// Replaces the user's tags.
    pub fn update_user_tags(&mut self, tags: TagSet)
        ensures
            final(self)@ == (UserView { tags: tags@, ..old(self)@ }),
    {
        self.tags = tags;
    }

    fn update_overall_rating(&mut self)
        requires
            match (old(self).rating_as_worker, old(self).rating_as_publisher) {
                (Some(w), Some(p)) => w + p <= u32::MAX,
                _ => true,
            },
        ensures
            final(self)@ == (UserView { overall_rating: overall_of(old(self)@.rating_as_worker, old(self)@.rating_as_publisher), ..old(self)@ }),
    {
        match self.rating_as_worker {
            None => match self.rating_as_publisher {
                None => self.overall_rating = None,
                Some(p_rating) => self.overall_rating = Some(p_rating),
            },
            Some(w_rating) => match self.rating_as_publisher {
                None => self.overall_rating = Some(w_rating),
                Some(p_rating) => self.overall_rating = Some((w_rating + p_rating) / 2),
            },
        }
    }
}

/// When every rating is between one and five, the running average stays
/// between one and five (scaled by a thousand).
pub proof fn lemma_average_stays_in_range(total: u32, rating: Option<u32>, r: u8)
    requires
        1 <= r <= 5,
        rating matches Some(x) ==> RATING_SCALE <= x <= 5 * RATING_SCALE,
        rating is Some ==> total >= 1,
    ensures
        averaged_in(total, rating, r) matches Some(y) && RATING_SCALE <= y <= 5 * RATING_SCALE,
{
    match rating {
        None => {},
        Some(x) => {
            let t = total as int;
            let a = t * x + r * 1000;
            assert(1000 * (t + 1) <= a <= 5000 * (t + 1)) by (nonlinear_arith)
                requires 1000 <= x <= 5000, 1 <= r <= 5, t >= 1, a == t * x + r * 1000;
            assert(1000 <= a / (t + 1) <= 5000) by (nonlinear_arith)
                requires 1000 * (t + 1) <= a <= 5000 * (t + 1), t >= 1;
        },
    }
}

/// The overall rating lies between the worker and publisher ratings.
pub proof fn lemma_overall_between(w: u32, p: u32)
    requires
        w + p <= u32::MAX,
    ensures
        overall_of(Some(w), Some(p)) matches Some(o) && (if w <= p { w <= o <= p } else { p <= o <= w }),
{
}

/// The ratings of a profile agree with its counts: a side has a rating
/// exactly when it has been rated, every rating lies between one and five
/// (scaled by a thousand), and the overall rating combines the two sides.
pub open spec fn ratings_consistent(u: UserView) -> bool {
    &&& (u.rating_as_worker is Some <==> u.total_work_as_worker > 0)
    &&& (u.rating_as_publisher is Some <==> u.total_work_as_publisher > 0)
    &&& (u.rating_as_worker matches Some(w) ==> RATING_SCALE <= w <= 5 * RATING_SCALE)
    &&& (u.rating_as_publisher matches Some(p) ==> RATING_SCALE <= p <= 5 * RATING_SCALE)
    &&& u.overall_rating == overall_of(u.rating_as_worker, u.rating_as_publisher)
}

/// Every profile reached from the empty one by ratings between one and
/// five has consistent ratings: the empty profile has them, and a rating
/// as a worker or as a publisher keeps them.
pub proof fn lemma_ratings_stay_consistent(u: UserView, r: u8)
    requires
        ratings_consistent(u),
        1 <= r <= 5,
    ensures
        ratings_consistent(default_user()),
        average_fits(u.total_work_as_worker, u.rating_as_worker, r, u.rating_as_publisher)
            ==> ratings_consistent(rated_as_worker(u, r)),
        average_fits(u.total_work_as_publisher, u.rating_as_publisher, r, u.rating_as_worker)
            ==> ratings_consistent(rated_as_publisher(u, r)),
{
    lemma_average_stays_in_range(u.total_work_as_worker, u.rating_as_worker, r);
    lemma_average_stays_in_range(u.total_work_as_publisher, u.rating_as_publisher, r);
}

/// Profiles kept by account.
pub trait UserTrait {
    /// The profile stored for `id`.
    spec fn stored_user(&self, id: AccountId) -> UserView;

    /// The profile of `id`, an empty one when none is stored.
    fn get_user_from_storage(&self, id: AccountId) -> (u: User)
        ensures
            u@ == self.stored_user(id),
    ;

    /// Stores the profile of `id`.
    fn save_user_to_storage(&mut self, id: AccountId, user: User)
        ensures
            final(self).stored_user(id) == user@,
            forall|other: AccountId| other != id ==> final(self).stored_user(other) == old(self).stored_user(other),
    ;
}

/// The set of tags users can pick from.
pub trait TagsTrait {
    /// The tags stored.
    spec fn stored_tags(&self) -> Set<Seq<u8>>;

    fn get_tags_from_storage(&self) -> (t: TagSet)
        ensures
            t@ == self.stored_tags(),
    ;

    fn save_tags_to_storage(&mut self, tags: TagSet)
        ensures
            final(self).stored_tags() == tags@,
    ;
}

/// What the user directory reports.
#[derive(Debug, Clone, Copy, PartialEq, Eq, Structural)]
pub enum Event {
    /// A user's profile has been updated.
    UserUpdated { user: AccountId },
    /// Tags have been added.
    TagsAdded,
}

/// Why the user directory refused an operation.
#[derive(Debug, Clone, Copy, PartialEq, Eq, Structural)]
pub enum Error {
    /// A tag that is not among the stored tags.
    InvalidTag,
}

/// The user directory's state, as mathematical values.
#[verifier::ext_equal]
pub struct DirectoryView {
    pub users: Map<AccountId, UserView>,
    pub tags: Set<Seq<u8>>,
    pub events: Seq<Event>,
}

/// The profile of `id` in `users`, an empty one when none is stored.
pub open spec fn user_or_default(users: Map<AccountId, UserView>, id: AccountId) -> UserView {
    if users.contains_key(id) {
        users[id]
    } else {
        default_user()
    }
}

/// Profiles by account and the tags users can pick from.
pub struct Pallet {
    users: Table<AccountId, User>,
    tags: TagSet,
    events: Vec<Event>,
}

impl View for Pallet {
    type V = DirectoryView;

    closed spec fn view(&self) -> DirectoryView {
        DirectoryView {
            users: self.users@.map_values(|u: User| u@),
            tags: self.tags@,
            events: self.events@,
        }
    }
}

impl UserTrait for Pallet {
    open spec fn stored_user(&self, id: AccountId) -> UserView {
        user_or_default(self@.users, id)
    }

    fn get_user_from_storage(&self, id: AccountId) -> (u: User) {
        match self.users.get(&id) {
            Some(u) => u.duplicate(),
            None => User::default(),
        }
    }

    fn save_user_to_storage(&mut self, id: AccountId, user: User)
        ensures
            final(self)@ == (DirectoryView { users: old(self)@.users.insert(id, user@), ..old(self)@ }),
    {
        self.put_user(id, user);
        proof {
            assert forall|other: AccountId| other != id implies final(self).stored_user(other) == old(self).stored_user(other) by {}
        }
    }
}

impl TagsTrait for Pallet {
    open spec fn stored_tags(&self) -> Set<Seq<u8>> {
        self@.tags
    }

    fn get_tags_from_storage(&self) -> (t: TagSet) {
        self.tags.duplicate()
    }

    fn save_tags_to_storage(&mut self, tags: TagSet)
        ensures
            final(self)@ == (DirectoryView { tags: tags@, ..old(self)@ }),
    {
        self.tags = tags;
    }
}

impl Pallet {
    /// A directory without profiles or tags.
    pub fn new() -> (d: Self)
        ensures
            d@ == (DirectoryView { users: Map::empty(), tags: Set::empty(), events: Seq::empty() }),
    {
        let d = Pallet { users: Table::new(), tags: TagSet::new(), events: Vec::new() };
        assert(d@.users =~= Map::<AccountId, UserView>::empty());
        d
    }

    /// The events reported so far, oldest first.
    pub fn events(&self) -> (e: &[Event])
        ensures
            e@ == self@.events,
    {
        self.events.as_slice()
    }

    /// Takes the profile of `id` out, an empty one when none is stored.
    pub fn take_user(&mut self, id: AccountId) -> (u: User)
        ensures
            u@ == user_or_default(old(self)@.users, id),
            final(self)@ == (DirectoryView { users: old(self)@.users.remove(id), ..old(self)@ }),
    {
        let ghost before = self.users@;
        let r = self.users.remove(&id);
        proof {
            assert(self.users@.map_values(|u: User| u@) =~= before.map_values(|u: User| u@).remove(id));
        }
        match r {
            Some(u) => u,
            None => User::default(),
        }
    }

    /// Stores the profile of `id`.
    pub fn put_user(&mut self, id: AccountId, user: User)
        ensures
            final(self)@ == (DirectoryView { users: old(self)@.users.insert(id, user@), ..old(self)@ }),
    {
        let ghost before = self.users@;
        let ghost v = user@;
        self.users.insert(id, user);
        proof {
            assert(self.users@.map_values(|u: User| u@) =~= before.map_values(|u: User| u@).insert(id, v));
        }
    }

    /// Adds tags to the set users can pick from.
    pub fn add_tags(&mut self, origin: Origin, tags: Vec<Vec<u8>>) -> (r: Result<(), DispatchError<Error>>)
        ensures
            match origin {
                Origin::Signed(_) => r is Ok && final(self)@ == (DirectoryView {
                    tags: old(self)@.tags.union(strings_of(tags@)),
                    events: old(self)@.events.push(Event::TagsAdded),
                    ..old(self)@
                }),
                _ => r == Err::<(), DispatchError<Error>>(DispatchError::BadOrigin) && final(self)@ == old(self)@,
            },
    {
        match ensure_signed::<Error>(origin) {
            Ok(_) => {},
            Err(e) => return Err(e),
        }
        let mut stored_tags = self.get_tags_from_storage();
        assert(strings_of(tags@.take(0)) =~= Set::<Seq<u8>>::empty());
        assert(stored_tags@ =~= old(self)@.tags.union(strings_of(tags@.take(0))));
        let mut i: usize = 0;
        while i < tags.len()
            invariant
                i <= tags@.len(),
                stored_tags@ == old(self)@.tags.union(strings_of(tags@.take(i as int))),
            decreases tags@.len() - i,
        {
            stored_tags.insert(copy_bytes(&tags[i]));
            proof {
                lemma_strings_of_take(tags@, i as int);
                assert(old(self)@.tags.union(strings_of(tags@.take(i + 1))) =~= old(self)@.tags.union(strings_of(tags@.take(i as int))).insert(tags@[i as int]@));
            }
            i = i + 1;
        }
        assert(tags@.take(i as int) =~= tags@);
        let ghost new_tags = stored_tags@;
        self.save_tags_to_storage(stored_tags);
        self.events.push(Event::TagsAdded);
        assert(self@ =~= (DirectoryView {
            tags: old(self)@.tags.union(strings_of(tags@)),
            events: old(self)@.events.push(Event::TagsAdded),
            ..old(self)@
        }));
        Ok(())
    }

    /// Updates the caller's name and, when tags are given, replaces the
    /// caller's tags by them; refused when a given tag is not among the
    /// stored tags.
    pub fn update_user(&mut self, origin: Origin, name: Option<Vec<u8>>, tags: Option<Vec<Vec<u8>>>) -> (r: Result<(), DispatchError<Error>>)
        ensures
            match origin {
                Origin::Signed(who) => {
                    if tags matches Some(given) && !strings_of(given@).subset_of(old(self)@.tags) {
                        r == Err::<(), DispatchError<Error>>(DispatchError::Module(Error::InvalidTag)) && final(self)@ == old(self)@
                    } else {
                        let before = user_or_default(old(self)@.users, who);
                        let after = UserView {
                            name: match name { Some(n) => n@, None => before.name },
                            tags: match tags { Some(given) => strings_of(given@), None => before.tags },
                            ..before
                        };
                        r is Ok && final(self)@ == (DirectoryView {
                            users: old(self)@.users.insert(who, after),
                            events: old(self)@.events.push(Event::UserUpdated { user: who }),
                            ..old(self)@
                        })
                    }
                },
                _ => r == Err::<(), DispatchError<Error>>(DispatchError::BadOrigin) && final(self)@ == old(self)@,
            },
    {
        let who = match ensure_signed::<Error>(origin) {
            Ok(a) => a,
            Err(e) => return Err(e),
        };
        let ghost old_view = self@;
        let new_tags: Option<TagSet> = match &tags {
            None => None,
            Some(given_tags) => {
                let mut user_tags = TagSet::new();
                assert(strings_of(given_tags@.take(0)) =~= Set::<Seq<u8>>::empty());
                let mut i: usize = 0;
                while i < given_tags.len()
                    invariant
                        i <= given_tags@.len(),
                        self@ == old_view,
                        old_view == old(self)@,
                        tags == Some(*given_tags),
                        origin == Origin::Signed(who),
                        user_tags@ == strings_of(given_tags@.take(i as int)),
                        strings_of(given_tags@.take(i as int)).subset_of(self@.tags),
                    decreases given_tags@.len() - i,
                {
                    proof {
                        lemma_strings_of_take(given_tags@, i as int);
                    }
                    if !self.tags.contains(&given_tags[i]) {
                        proof {
                            assert(strings_of(given_tags@).contains(given_tags@[i as int]@));
                            assert(!old(self)@.tags.contains(given_tags@[i as int]@));
                            assert(!strings_of(given_tags@).subset_of(old(self)@.tags));
                            assert(self@ == old(self)@);
                        }
                        return Err(DispatchError::Module(Error::InvalidTag));
                    }
                    user_tags.insert(copy_bytes(&given_tags[i]));
                    i = i + 1;
                }
                assert(given_tags@.take(i as int) =~= given_tags@);
                Some(user_tags)
            },
        };
        let mut user = self.take_user(who);
        match name {
            None => {},
            Some(user_name) => user.name = user_name,
        }
        match new_tags {
            None => {},
            Some(t) => user.update_user_tags(t),
        }
        self.put_user(who, user);
        self.events.push(Event::UserUpdated { user: who });
        proof {
            assert(old_view.users.remove(who).insert(who, user@) =~= old_view.users.insert(who, user@));
        }
        Ok(())
    }
}

proof fn lemma_strings_of_take(s: Seq<Vec<u8>>, i: int)
    requires
        0 <= i < s.len(),
    ensures
        strings_of(s.take(i + 1)) == strings_of(s.take(i)).insert(s[i]@),
{
    let a = s.take(i + 1);
    let b = s.take(i);
    assert forall|x: Seq<u8>| #[trigger] strings_of(a).contains(x) == strings_of(b).insert(s[i]@).contains(x) by {
        if strings_of(a).contains(x) {
            let k = choose|k: int| 0 <= k < a.len() && #[trigger] a[k]@ == x;
            if k < i {
                assert(b[k] == s[k]);
            }
        }
        if strings_of(b).contains(x) {
            let k = choose|k: int| 0 <= k < b.len() && #[trigger] b[k]@ == x;
            assert(a[k] == s[k]);
        }
        if x == s[i]@ {
            assert(a[i] == s[i]);
        }
    }
    assert(strings_of(a) =~= strings_of(b).insert(s[i]@));
}

} // verus!
