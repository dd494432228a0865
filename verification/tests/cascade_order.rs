use wat::cascade_order::{applies_before, bucket_for, cascade_order, Bucket, CascadeKey, Origin, Specificity};

fn key(bucket: Bucket, inline: bool, ids: u32, classes: u32, types: u32, order: usize) -> CascadeKey {
    CascadeKey { bucket, inline, specificity: Specificity { ids, classes, types }, order }
}

#[test]
fn buckets_follow_origin_and_importance() {
    assert_eq!(bucket_for(Origin::UserAgent, false), Bucket::UaNormal);
    assert_eq!(bucket_for(Origin::User, false), Bucket::UserNormal);
    assert_eq!(bucket_for(Origin::Author, false), Bucket::AuthorNormal);
    assert_eq!(bucket_for(Origin::Author, true), Bucket::AuthorImportant);
    assert_eq!(bucket_for(Origin::User, true), Bucket::UserImportant);
    assert_eq!(bucket_for(Origin::UserAgent, true), Bucket::UaImportant);
    assert_eq!(Bucket::UaNormal.rank(), 0);
    assert_eq!(Bucket::UaImportant.rank(), 5);
}

#[test]
fn author_beats_user_beats_user_agent() {
    let ua = key(Bucket::UaNormal, false, 0, 0, 1, 0);
    let user = key(Bucket::UserNormal, false, 0, 0, 1, 1);
    let author = key(Bucket::AuthorNormal, false, 0, 0, 1, 2);
    assert!(applies_before(&ua, &user));
    assert!(applies_before(&user, &author));
    assert!(!applies_before(&author, &ua));
}

#[test]
fn important_beats_inline() {
    let inline = key(Bucket::AuthorNormal, true, 0, 0, 0, 5);
    let important = key(Bucket::AuthorImportant, false, 0, 0, 1, 0);
    assert!(applies_before(&inline, &important));
    assert!(!applies_before(&important, &inline));
}

#[test]
fn inline_beats_selectors_and_specificity_beats_order() {
    let by_id = key(Bucket::AuthorNormal, false, 1, 0, 0, 0);
    let inline = key(Bucket::AuthorNormal, true, 0, 0, 0, 0);
    let by_class = key(Bucket::AuthorNormal, false, 0, 1, 0, 3);
    assert!(applies_before(&by_id, &inline));
    assert!(applies_before(&by_class, &by_id));
    let earlier = key(Bucket::AuthorNormal, false, 0, 1, 0, 1);
    assert!(applies_before(&earlier, &by_class));
    assert!(!applies_before(&by_class, &by_class));
}

#[test]
fn cascade_order_sorts_stably_from_lowest_to_highest() {
    let keys = vec![
        key(Bucket::AuthorImportant, false, 0, 0, 1, 0),
        key(Bucket::UaNormal, false, 0, 0, 1, 1),
        key(Bucket::AuthorNormal, true, 0, 0, 0, 2),
        key(Bucket::AuthorNormal, false, 1, 0, 0, 3),
        key(Bucket::UserNormal, false, 0, 0, 1, 4),
        key(Bucket::AuthorNormal, false, 0, 1, 0, 5),
    ];
    assert_eq!(cascade_order(&keys), vec![1, 4, 5, 3, 2, 0]);
}

#[test]
fn tied_keys_keep_their_places() {
    let same = key(Bucket::AuthorNormal, false, 0, 1, 0, 7);
    let keys = vec![same, key(Bucket::UaNormal, false, 0, 0, 0, 0), same];
    assert_eq!(cascade_order(&keys), vec![1, 0, 2]);
    assert_eq!(cascade_order(&Vec::new()), Vec::<usize>::new());
}
