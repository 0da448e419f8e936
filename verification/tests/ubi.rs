use shivarthu::ubi::{fun_ubi, Error};

#[test]
fn fund_ubi_test() {
    assert!(fun_ubi(1, true, 1, 1_000_000).is_ok());
}

#[test]
fn ubi_amount() {
    // A hundredth of the issuance, over twelve months, over the citizens.
    assert_eq!(fun_ubi(1, true, 5, 1_200_000), Ok(200));
    assert_eq!(fun_ubi(1, true, 1, 1199), Ok(0));
    assert_eq!(fun_ubi(1, false, 5, 1_200_000), Err(Error::NotValidated));
}
