use shivarthu::shared_storage::{Error, Pallet};

#[test]
fn approved_citizens() {
    let p = Pallet { approved_citizen_address: vec![2, 5, 9] };
    assert_eq!(p.check_citizen_is_approved(5), Ok(()));
    assert_eq!(p.check_citizen_is_approved(4), Err(Error::CitizenNotApproved));
    assert_eq!(p.get_approved_citizen_count(), 3);
}
