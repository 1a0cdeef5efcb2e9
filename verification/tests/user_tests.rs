use dot_marketplace::dispatch::{DispatchError, Origin};
use dot_marketplace::user::{Error, Event, Pallet, TagSet, TagsTrait, User, UserTrait};

#[test]
fn a_new_profile_has_no_ratings() {
    let u = User::default();
    assert_eq!(u.get_worker_rating(), None);
    assert_eq!(u.get_publisher_rating(), None);
    assert_eq!(u.get_overall_rating(), None);
    assert_eq!(u.get_work_counts(), (0, 0));
    assert!(u.name.is_empty());
}

#[test]
fn worker_ratings_are_averaged_per_thousand() {
    let mut u = User::default();
    u.update_worker_rating(5);
    assert_eq!(u.get_worker_rating(), Some(5000));
    assert_eq!(u.get_overall_rating(), Some(5000));
    u.update_worker_rating(3);
    assert_eq!(u.get_worker_rating(), Some(4000));
    u.update_worker_rating(1);
    // (2 * 4000 + 1000) / 3
    assert_eq!(u.get_worker_rating(), Some(3000));
    u.update_worker_rating(2);
    // (3 * 3000 + 2000) / 4, rounded down
    assert_eq!(u.get_worker_rating(), Some(2750));
    assert_eq!(u.get_work_counts(), (4, 0));
}

#[test]
fn overall_rating_is_the_mean_of_both_sides() {
    let mut u = User::default();
    u.update_publisher_rating(2);
    assert_eq!(u.get_overall_rating(), Some(2000));
    u.update_worker_rating(5);
    assert_eq!(u.get_overall_rating(), Some(3500));
    u.update_publisher_rating(3);
    assert_eq!(u.get_publisher_rating(), Some(2500));
    // (5000 + 2500) / 2
    assert_eq!(u.get_overall_rating(), Some(3750));
    assert_eq!(u.get_work_counts(), (1, 2));
}

#[test]
fn tags_can_be_replaced() {
    let mut u = User::default();
    let mut tags = TagSet::new();
    tags.insert(b"rust".to_vec());
    tags.insert(b"rust".to_vec());
    tags.insert(b"design".to_vec());
    assert_eq!(tags.len(), 2);
    u.update_user_tags(tags);
    assert!(u.has_tag(&b"rust".to_vec()));
    assert!(!u.has_tag(&b"go".to_vec()));
}

#[test]
fn directory_adds_tags_and_updates_profiles() {
    let mut d = Pallet::new();
    assert_eq!(d.add_tags(Origin::Signed(1), vec![b"rust".to_vec(), b"design".to_vec()]), Ok(()));
    assert!(d.get_tags_from_storage().contains(&b"design".to_vec()));
    assert_eq!(
        d.update_user(Origin::Signed(4), Some(b"Bob".to_vec()), Some(vec![b"rust".to_vec()])),
        Ok(())
    );
    let bob = d.get_user_from_storage(4);
    assert_eq!(bob.name, b"Bob".to_vec());
    assert!(bob.has_tag(&b"rust".to_vec()));
    assert!(!bob.has_tag(&b"design".to_vec()));
    // only the name changes when no tags are given
    d.update_user(Origin::Signed(4), Some(b"Robert".to_vec()), None).unwrap();
    let bob = d.get_user_from_storage(4);
    assert_eq!(bob.name, b"Robert".to_vec());
    assert!(bob.has_tag(&b"rust".to_vec()));
    assert_eq!(
        d.events().to_vec(),
        vec![Event::TagsAdded, Event::UserUpdated { user: 4 }, Event::UserUpdated { user: 4 }]
    );
}

#[test]
fn unknown_tags_are_refused() {
    let mut d = Pallet::new();
    d.add_tags(Origin::Signed(1), vec![b"rust".to_vec()]).unwrap();
    assert_eq!(
        d.update_user(Origin::Signed(2), Some(b"Eve".to_vec()), Some(vec![b"rust".to_vec(), b"go".to_vec()])),
        Err(DispatchError::Module(Error::InvalidTag))
    );
    assert!(d.get_user_from_storage(2).name.is_empty());
    assert_eq!(d.add_tags(Origin::Unsigned, vec![]), Err(DispatchError::BadOrigin));
    assert_eq!(d.update_user(Origin::Root, None, None), Err(DispatchError::BadOrigin));
}

#[test]
fn saved_profiles_are_read_back() {
    let mut d = Pallet::new();
    let mut u = User::default();
    u.update_worker_rating(4);
    d.save_user_to_storage(9, u);
    assert_eq!(d.get_user_from_storage(9).get_worker_rating(), Some(4000));
    assert_eq!(d.get_user_from_storage(8).get_worker_rating(), None);
}

#[test]
fn ratings_stay_consistent_with_counts() {
    let mut u = User::default();
    for (i, r) in [5u8, 1, 3, 4, 2, 5, 1].iter().enumerate() {
        if i % 2 == 0 {
            u.update_worker_rating(*r);
        } else {
            u.update_publisher_rating(*r);
        }
        let (w_count, p_count) = u.get_work_counts();
        assert_eq!(u.get_worker_rating().is_some(), w_count > 0);
        assert_eq!(u.get_publisher_rating().is_some(), p_count > 0);
        for rating in [u.get_worker_rating(), u.get_publisher_rating()].into_iter().flatten() {
            assert!((1000..=5000).contains(&rating));
        }
        let expected = match (u.get_worker_rating(), u.get_publisher_rating()) {
            (Some(w), Some(p)) => Some((w + p) / 2),
            (Some(x), None) | (None, Some(x)) => Some(x),
            (None, None) => None,
        };
        assert_eq!(u.get_overall_rating(), expected);
    }
    assert_eq!(u.get_work_counts(), (4, 3));
}
