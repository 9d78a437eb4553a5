use term_tuple::{
    get_atom, get_int, get_tuple, make_atom, make_int, make_list, make_tuple, Codec, Env, Term,
    TermError,
};

#[test]
fn int_round_trip() {
    let mut env = Env::new(1);
    let t = make_int(&mut env, -42);
    assert_eq!(get_int(&env, t), Ok(-42));
}

#[test]
fn atom_round_trip() {
    let mut env = Env::new(1);
    let t = make_atom(&mut env, 9);
    assert_eq!(get_atom(&env, t), Ok(9));
}

#[test]
fn get_int_rejects_atom() {
    let mut env = Env::new(1);
    let t = make_atom(&mut env, 9);
    assert_eq!(get_int(&env, t), Err(TermError::BadArg));
}

#[test]
fn compose_decompose_round_trip() {
    let mut env = Env::new(1);
    let a = make_int(&mut env, 10);
    let b = make_int(&mut env, 20);
    let c = make_int(&mut env, 30);
    for handles in [vec![], vec![a], vec![a, b], vec![a, b, c], vec![c, a, b, a]] {
        let t = make_tuple(&mut env, &handles);
        let back = get_tuple(&env, t).expect("a composed tuple must decompose");
        assert_eq!(back, handles);
    }
}

#[test]
fn decompose_rejects_non_tuple() {
    let mut env = Env::new(1);
    let n = make_int(&mut env, 1);
    assert_eq!(get_tuple(&env, n), Err(TermError::BadArg));
    let l = make_list(&mut env, &[n]);
    assert_eq!(get_tuple(&env, l), Err(TermError::BadArg));
}

#[test]
fn encode_decode_arity_0() {
    let mut env = Env::new(1);
    let t = ().encode(&mut env);
    assert_eq!(<() as Codec>::decode(&env, t), Ok(()));
}

#[test]
fn encode_decode_arity_1() {
    let mut env = Env::new(1);
    let t = (5i64,).encode(&mut env);
    assert_eq!(<(i64,) as Codec>::decode(&env, t), Ok((5i64,)));
}

#[test]
fn encode_decode_arity_2() {
    let mut env = Env::new(1);
    let t = (5i64, true).encode(&mut env);
    assert_eq!(<(i64, bool) as Codec>::decode(&env, t), Ok((5i64, true)));
}

#[test]
fn encode_decode_arity_3() {
    let mut env = Env::new(1);
    let v = (1i64, false, 3i64);
    let t = v.encode(&mut env);
    assert_eq!(<(i64, bool, i64) as Codec>::decode(&env, t), Ok(v));
}

#[test]
fn encode_decode_arity_4() {
    let mut env = Env::new(1);
    let v = (1i64, 2i64, 3i64, 4i64);
    let t = v.encode(&mut env);
    assert_eq!(<(i64, i64, i64, i64) as Codec>::decode(&env, t), Ok(v));
}

#[test]
fn encode_decode_arity_5() {
    let mut env = Env::new(1);
    let v = (1i64, true, 3i64, false, 5i64);
    let t = v.encode(&mut env);
    assert_eq!(
        <(i64, bool, i64, bool, i64) as Codec>::decode(&env, t),
        Ok(v)
    );
}

#[test]
fn encode_decode_arity_6() {
    let mut env = Env::new(1);
    let v = (1i64, 2i64, 3i64, 4i64, 5i64, 6i64);
    let t = v.encode(&mut env);
    assert_eq!(
        <(i64, i64, i64, i64, i64, i64) as Codec>::decode(&env, t),
        Ok(v)
    );
}

#[test]
fn encode_decode_arity_7() {
    let mut env = Env::new(1);
    let v = (1i64, true, 3i64, false, 5i64, true, 7i64);
    let t = v.encode(&mut env);
    assert_eq!(
        <(i64, bool, i64, bool, i64, bool, i64) as Codec>::decode(&env, t),
        Ok(v)
    );
}

#[test]
fn encode_decode_nested_tuple() {
    let mut env = Env::new(1);
    let v = ((1i64, true), 3i64);
    let t = v.encode(&mut env);
    assert_eq!(<((i64, bool), i64) as Codec>::decode(&env, t), Ok(v));
}

#[test]
fn arity_mismatch_rejected() {
    let mut env = Env::new(1);
    let a = make_int(&mut env, 1);
    let b = make_int(&mut env, 2);
    let c = make_int(&mut env, 3);
    let three = make_tuple(&mut env, &[a, b, c]);
    // Three elements never decode as a pair, and never silently truncate.
    assert_eq!(
        <(i64, i64) as Codec>::decode(&env, three),
        Err(TermError::BadArg)
    );
    let two = make_tuple(&mut env, &[a, b]);
    assert_eq!(
        <(i64, i64, i64) as Codec>::decode(&env, two),
        Err(TermError::BadArg)
    );
    assert_eq!(<() as Codec>::decode(&env, two), Err(TermError::BadArg));
}

#[test]
fn non_tuple_rejected_at_every_arity() {
    let mut env = Env::new(1);
    let n = make_int(&mut env, 7);
    let l = make_list(&mut env, &[n, n]);
    assert_eq!(<() as Codec>::decode(&env, n), Err(TermError::BadArg));
    assert_eq!(<(i64,) as Codec>::decode(&env, n), Err(TermError::BadArg));
    assert_eq!(
        <(i64, i64) as Codec>::decode(&env, l),
        Err(TermError::BadArg)
    );
}

#[test]
fn element_type_failure_fails_whole_tuple() {
    let mut env = Env::new(1);
    let good = make_int(&mut env, 1);
    let bad = make_atom(&mut env, 9);
    // Second element is no truth atom, first is a fine integer.
    let t = make_tuple(&mut env, &[good, bad]);
    assert_eq!(
        <(i64, bool) as Codec>::decode(&env, t),
        Err(TermError::BadArg)
    );
    // First element fails, whatever the second holds.
    let u = make_tuple(&mut env, &[bad, good]);
    assert_eq!(
        <(bool, i64) as Codec>::decode(&env, u),
        Err(TermError::BadArg)
    );
}

#[test]
fn bool_needs_a_truth_atom() {
    let mut env = Env::new(1);
    let yes = make_atom(&mut env, 1);
    let no = make_atom(&mut env, 0);
    let other = make_atom(&mut env, 5);
    assert_eq!(<bool as Codec>::decode(&env, yes), Ok(true));
    assert_eq!(<bool as Codec>::decode(&env, no), Ok(false));
    assert_eq!(
        <bool as Codec>::decode(&env, other),
        Err(TermError::BadArg)
    );
}

#[test]
fn order_is_preserved() {
    let mut env = Env::new(1);
    let t = (1i64, 2i64).encode(&mut env);
    let back = <(i64, i64) as Codec>::decode(&env, t).expect("round trip");
    assert_eq!(back, (1i64, 2i64));
    assert_ne!(back, (2i64, 1i64));
}

#[test]
fn recompose_is_tuple_equal() {
    let mut env = Env::new(1);
    let a = make_int(&mut env, 4);
    let b = make_atom(&mut env, 2);
    let t = make_tuple(&mut env, &[a, b]);
    // Recomposing the decomposed elements gives a fresh handle, but one
    // that decomposes into the very same elements: equal as a tuple.
    let elems = get_tuple(&env, t).expect("a composed tuple must decompose");
    let t2 = make_tuple(&mut env, &elems);
    let elems2 = get_tuple(&env, t2).expect("a composed tuple must decompose");
    assert_eq!(elems2, elems);
}

#[test]
fn empty_tuple_identity() {
    let mut env = Env::new(1);
    let t = ().encode(&mut env);
    let elems: Vec<Term> = get_tuple(&env, t).expect("the empty tuple is a tuple");
    assert_eq!(elems.len(), 0);
}
