use calculator::passwd::{decimal_string, gen_passwd, passwd_from_digest};
use sha3::Digest;

#[test]
fn test() {
    let symbols = ['.', '@', '_', '-', ':', '!'];
    let auth = "jakflsd";
    let mut result = Vec::with_capacity(25);
    for i in 0..25 {
        result.push(gen_passwd(auth, &i.to_string(), 16, true, true, &symbols));
    }
    let correct: Vec<&'static str> = vec![
        "yeQPSe0v_raa!P2@",
        "I0snnG._JuE@K:.C",
        "8LKoZABRIAK-qGCs",
        "StpO6HYkJ@UwD2r1",
        "M2d3JRXkHK@-feL.",
        "cc@Yeh:e7Kx4:Q:S",
        "BSk2Jkue@Ucs6jG5",
        "FyTO@8!07szxf-P7",
        "hgrrxWAu:z-eNu9v",
        "g.QL9Mo.7g.Q5M5J",
        "vw50gdVw32S:T_L.",
        "G5FHO-U5tCy!pPB4",
        "s:PL2lXXg378.AwN",
        "l6DWmtH!csRaB9ql",
        ".TAE@bXb149Bt6s5",
        "D7wg3!Jk@wJ52KN7",
        "DIK.0_FpQL7V41yl",
        "4TRSi!R@XU4ZGyGj",
        "g7.HJMaHDKQo5CxI",
        "J0Xhj!SgpIZ0O:a-",
        "V8I7.RO3!FfLV2LI",
        "nlr-CjL:3yfZ2y8K",
        "KTVEE..MH39go7L3",
        "0hV.CKcPBNidRxje",
        "MA6:WO587kERY4C7",
    ];
    assert_eq!(result, correct);
}

#[test]
fn doc_example() {
    let symbols = ['.', '@', '_', '-', ':', '!'];
    assert_eq!(gen_passwd("OTZ", "facebook", 16, true, true, &symbols), "793HjDt8_xt2cdnM");
}

#[test]
fn short_length_gives_empty() {
    let symbols = ['.'];
    assert_eq!(gen_passwd("a", "b", 5, true, true, &symbols), "");
    assert_eq!(gen_passwd("a", "b", 6, false, false, &symbols).chars().count(), 6);
}

#[test]
fn decimal_digits() {
    assert_eq!(decimal_string(0), "0");
    assert_eq!(decimal_string(16), "16");
    assert_eq!(decimal_string(4294967295), "4294967295");
}

#[test]
fn password_shape() {
    let symbols = ['#'];
    let p = gen_passwd("me", "site", 8, true, true, &symbols);
    assert_eq!(p.chars().count(), 8);
    assert!(p.chars().any(|c| c.is_ascii_digit()));
    assert!(p.chars().any(|c| c.is_ascii_uppercase()));
    assert!(p.contains('#'));
    assert!(p.chars().all(|c| c.is_ascii_alphanumeric() || c == '#'));
    let q = gen_passwd("me", "site", 8, false, false, &symbols);
    assert!(q.chars().all(|c| c.is_ascii_lowercase() || c == '#'));
    assert_eq!(p, gen_passwd("me", "site", 8, true, true, &symbols));
}

#[test]
fn password_from_given_digest() {
    let symbols = ['.', '@', '_', '-', ':', '!'];
    let seed = "OTZfacebook16don't \u{200b}crack \u{200b}this!\u{1f631}";
    let digest = sha3::Sha3_512::digest(seed.as_bytes()).to_vec();
    assert_eq!(passwd_from_digest(&digest, 16, true, true, &symbols), "793HjDt8_xt2cdnM");
    let zeros = [0u8; 64];
    let p = passwd_from_digest(&zeros, 10, false, true, &['%']);
    assert_eq!(p.chars().count(), 10);
    assert!(p.contains('%'));
    assert_eq!(p, passwd_from_digest(&zeros, 10, false, true, &['%']));
    assert_ne!(p, passwd_from_digest(&[1u8; 64], 10, false, true, &['%']));
}
