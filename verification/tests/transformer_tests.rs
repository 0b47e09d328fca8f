use srs::hash::{Digest, HashFailure};
use srs::parser::{SRS0Address, SRS1Address, SRSAddress};
use srs::timestamper::{SRSTimestamper, Timestamper};
use srs::transformers::ForwardableAddress::{Plain, SRS};
use srs::transformers::{ForwardableAddress, Forwarder, ForwarderError};
use srs::transformers::{ForwarderInitializationError, Receiver, ReceiverError};
use srs::transformers::ReceiverInitializationError;

struct MockTimestamper {
    pub verify: Box<dyn Fn(&str) -> Result<(), i32>>,
    pub now: Box<dyn Fn() -> String>,
}

impl Timestamper for MockTimestamper {
    fn verify_timestamp(&self, ts: &str) -> Result<(), i32> {
        (self.verify)(ts)
    }
    fn now_as_timestamp(&self) -> String {
        (self.now)()
    }
}

fn make_receiver(key: &str, hostname: &str) -> Receiver<MockTimestamper> {
    return Receiver::new(
        key.to_owned().into_bytes(),
        hostname.to_owned().into_bytes(),
        Digest::Sha512,
        MockTimestamper { verify: Box::new(|_ts| Ok(())), now: Box::new(|| "AA".to_string()) },
    )
    .expect("test should assert receiver params are ok");
}

fn expect_receive<T>(receiver: &Receiver<T>, input: &str, expect: &str)
where
    T: Timestamper,
{
    let input_srs = SRSAddress::from_string(input).expect("test should supply valid srs addresss");
    println!("{:?}", input_srs);
    let receive = receiver.receive(&input_srs).expect("test should supply valid receive");
    println!("receive = {:?}", receive);
    assert!(receive == expect);
}

fn expect_receive_err<F, T>(receiver: &Receiver<T>, input: &str, match_err: F)
where
    F: FnOnce(ReceiverError) -> bool,
    T: Timestamper,
{
    let input_srs = SRSAddress::from_string(input).expect("test should supply valid srs addresss");
    let receive = receiver.receive(&input_srs);
    assert!(receive.is_err());
    let receive = receive.unwrap_err();
    assert!(match_err(receive) == true);
}

#[test]
fn it_rewrites_srs1_to_srs0_to_plain() {
    let b = make_receiver("bsecret", "b");
    let c = make_receiver("csecret", "c");
    // IRL, these would occurr in reverse order
    expect_receive(&b, "SRS0=M59m=TT=a=user@b", "user@a");
    expect_receive(&c, "SRS1=nAM6=b==M59m=TT=a=user@c", "SRS0=M59m=TT=a=user@b");
}

#[test]
fn it_validates_srs0_hmac_and_reports_expected_hmac_on_failure() {
    let b = make_receiver("asecret", "b");
    let check_error = |r| match r {
        ReceiverError::HashVerificationFailed(correct) => {
            println!("received hash verification error: should have been: {:?}", correct);
            correct == "uNjN".to_string()
        }
        _ => false,
    };
    expect_receive_err(&b, "SRS0=HHHH=TT=a=user@b", check_error);
}

#[test]
fn it_validates_srs1_hmac_and_reports_expected_hmac_on_failure() {
    let c = make_receiver("csecret", "c");
    let check_error = |r| match r {
        ReceiverError::HashVerificationFailed(correct) => {
            println!("received hash verification error: should have been: {:?}", correct);
            correct == "nAM6".to_string()
        }
        _ => false,
    };
    expect_receive_err(&c, "SRS1=HHHH=b==M59m=TT=a=user@c", check_error);
}

#[test]
fn it_allows_changed_case_in_hmac() {
    // The hashes are written in base 64, but are compared without regard to
    // case, since a remote MTA may have smashed the case of the address.
    let b = make_receiver("bsecret", "b");
    expect_receive(&b, "SRS0=m59m=TT=a=user@b", "user@a");
}

#[test]
fn it_uses_the_timestamper_to_check_timestamp() {
    let mut b = make_receiver("bsecret", "b");
    b.timestamper = MockTimestamper {
        verify: Box::new(|ts| match ts == "ac" {
            true => Ok(()),
            false => Err(23),
        }),
        now: Box::new(|| panic!("shouldn't be called")),
    };
    expect_receive(&b, "SRS0=pt9d=ac=a=user@b", "user@a");
    expect_receive_err(&b, "SRS0=tH4m=ae=a=user@b", |e| match e {
        ReceiverError::TimestampError(23) => true,
        x => {
            println!("{:?}", x);
            false
        }
    });
}

fn make_forwarder(key: &str, hostname: &str) -> Forwarder<MockTimestamper> {
    return Forwarder::new(
        key.to_owned().into_bytes(),
        hostname.to_owned().into_bytes(),
        Digest::Sha512,
        "=",
        MockTimestamper { verify: Box::new(|_ts| Err(23)), now: Box::new(|| "aa".to_string()) },
    )
    .expect("test should assert receiver params are ok");
}

#[test]
fn it_adds_srs0_prefix() {
    let f = make_forwarder("asecret", "a");

    let plain = ForwardableAddress::Plain { local: "user".to_string(), domain: "origin".to_string() };

    let res = f.forward(plain);

    assert!(res.is_ok());
    let res = res.unwrap();
    assert!(res.is_0());
    let res = res.srs0();
    assert!(res.hostname == "origin");
    assert!(res.local == "user");
    assert!(res.domain == "a");

    // Verify hash is correct
    let r = make_receiver("asecret", "a");
    let back = r.receive(&SRSAddress::SRS0(res));
    assert!(back.is_ok());
}

#[test]
fn it_adds_srs1_prefix_to_srs0() {
    let f = make_forwarder("bsecret", "b");

    let srs0 = ForwardableAddress::SRS(SRSAddress::SRS0(SRS0Address {
        separator: "+".to_string(),
        hash: "HHHH".to_string(),
        tt: "TT".to_string(),
        hostname: "origin".to_string(),
        local: "user".to_string(),
        domain: "a".to_string(),
    }));

    let res = f.forward(srs0);

    assert!(res.is_ok());
    let res = res.unwrap();
    assert!(res.is_1());
    let res = res.srs1();

    assert!(res.hostname == "a");
    assert!(res.domain == "b");
    assert!(res.opaque_local == "+HHHH+TT+origin+user");

    let r = make_receiver("bsecret", "b");
    let back = r.receive(&SRSAddress::SRS1(res));
    assert!(back.is_ok());
}

#[test]
fn it_updates_domain_on_srs1_address() {
    let f = make_forwarder("csecret", "c");

    let srs1 = ForwardableAddress::SRS(SRSAddress::SRS1(SRS1Address {
        separator: "=".to_string(),
        hash: "HBHB".to_string(),
        hostname: "a".to_string(),
        opaque_local: "+HHHH+TT+origin+user".to_string(),
        domain: "b".to_string(),
    }));

    let res = f.forward(srs1);

    assert!(res.is_ok());
    let res = res.unwrap();
    assert!(res.is_1());
    let res = res.srs1();
    println!("{:?}", res);
    assert!(res.domain == "c");
    assert!(res.hash == "HBHB");
    assert!(res.hostname == "a");
    assert!(res.opaque_local == "+HHHH+TT+origin+user");
    assert!(res.separator == "=");
}

#[test]
fn it_handles_full_chain_simulation() {
    let plain = Plain { local: "user".to_string(), domain: "origin".to_string() };
    println!("{:?}", plain);

    let f_a = make_forwarder("asecret", "a");
    let f_b = make_forwarder("bsecret", "b");
    let f_c = make_forwarder("csecret", "c");
    let r_a = make_receiver("asecret", "a");
    let r_b = make_receiver("bsecret", "b");

    let res = f_a.forward(plain).and_then(|x| f_b.forward(SRS(x))).and_then(|x| f_c.forward(SRS(x)));

    println!("{:?}", res);
    assert!(res.is_ok());
    let res = res.unwrap();

    // The host that C forwarded to bounces, and its MTA understands SRS: the
    // bounce goes to B, which can check the hash and pass the bounce on to A.
    let res = r_b.receive(&res);
    println!("{:?}", res);

    assert!(res.is_ok());
    let res = res.unwrap();
    let res = SRSAddress::from_string(res.as_str());
    assert!(res.is_ok());
    let res = r_a.receive(&res.unwrap());
    println!("{:?}", res);

    assert!(res.is_ok());
    let res = res.unwrap();

    println!("{:?}", res);
    assert!(res == "user@origin");
}

#[test]
fn srstimestamper_respects_max_valid_delta() {
    let t = SRSTimestamper { max_valid_delta: 3 };

    let now = SRSTimestamper::now_in_days_10bit();
    let good_date = (now + 3) % 1024;
    let bad_date = (now + 6) % 1024;

    let good_ts = SRSTimestamper::base32_email_safe_encode_10bit(good_date);
    let bad_ts = SRSTimestamper::base32_email_safe_encode_10bit(bad_date);

    let r = t.verify_timestamp(&good_ts);
    println!("{:?}", r);
    assert!(r == Ok(()));

    let r = t.verify_timestamp(&bad_ts);
    println!("{:?}", r);
    assert!(r == Err(6));
}

#[test]
fn srstimestamper_base32_works_for_example() {
    let enc = SRSTimestamper::base32_email_safe_encode_10bit(23);
    println!("enc: {}", enc);
    assert!(enc == "xa");
    let dec = SRSTimestamper::base32_email_safe_decode_10bit(&enc);
    assert!(dec.is_ok());
    let dec = dec.unwrap();
    println!("dec: {:b}", dec);
    assert!(dec == 23);
}

#[test]
fn srstimestamper_base32_works_for_all_10bit_numbers() {
    for i in 0..1024 {
        let enc = SRSTimestamper::base32_email_safe_encode_10bit(i);
        let dec = SRSTimestamper::base32_email_safe_decode_10bit(&enc);
        assert!(dec.is_ok());
        let dec = dec.unwrap();
        if dec != i {
            println!("i = {}, enc = {}, dec = {}", i, enc, dec);
            println!("enc: {}", enc);
            println!("dec: {:b}", dec);
            assert!(false);
        }
    }
}

#[test]
fn it_reads_base32_without_regard_to_case() {
    assert_eq!(SRSTimestamper::base32_email_safe_decode_10bit("XA"), Ok(23));
    assert_eq!(SRSTimestamper::base32_email_safe_decode_10bit("Xa"), Ok(23));
    assert_eq!(SRSTimestamper::base32_email_safe_decode_10bit("aa"), Ok(0));
    assert_eq!(SRSTimestamper::base32_email_safe_decode_10bit("77"), Ok(1023));
    assert_eq!(SRSTimestamper::base32_email_safe_decode_10bit("2a"), Ok(26));
    assert_eq!(SRSTimestamper::base32_email_safe_decode_10bit("ab"), Ok(32));
    assert_eq!(SRSTimestamper::base32_email_safe_decode_10bit("xab"), Ok(23));
    assert_eq!(SRSTimestamper::base32_email_safe_encode_10bit(1023), "77");
    assert_eq!(SRSTimestamper::base32_email_safe_encode_10bit(26), "2a");
    assert_eq!(SRSTimestamper::base32_email_safe_encode_10bit(1024 + 23), "xa");
}

#[test]
fn it_fails_to_read_what_is_no_base32() {
    assert_eq!(SRSTimestamper::base32_email_safe_decode_10bit(""), Err(()));
    assert_eq!(SRSTimestamper::base32_email_safe_decode_10bit("a"), Err(()));
    assert_eq!(SRSTimestamper::base32_email_safe_decode_10bit("a1"), Err(()));
    assert_eq!(SRSTimestamper::base32_email_safe_decode_10bit("8a"), Err(()));
    assert_eq!(SRSTimestamper::base32_email_safe_decode_10bit("a="), Err(()));
    assert_eq!(SRSTimestamper::base32_email_safe_decode_10bit("\u{e9}"), Err(()));
    assert_eq!(SRSTimestamper::base32_email_safe_decode_10bit("a\u{e9}"), Err(()));
}

#[test]
fn it_counts_days_in_ten_bits() {
    assert_eq!(SRSTimestamper::days_10bit(0), 0);
    assert_eq!(SRSTimestamper::days_10bit(86399), 0);
    assert_eq!(SRSTimestamper::days_10bit(86400), 1);
    assert_eq!(SRSTimestamper::days_10bit(86400 * 1023), 1023);
    assert_eq!(SRSTimestamper::days_10bit(86400 * 1024), 0);
    assert_eq!(SRSTimestamper::days_10bit(1_700_000_000), 19675 % 1024);
    assert!(SRSTimestamper::now_in_days_10bit() < 1024);
}

#[test]
fn it_judges_a_timestamp_by_its_plain_distance() {
    let t = SRSTimestamper { max_valid_delta: 3 };
    let day = |d: u16| SRSTimestamper::base32_email_safe_encode_10bit(d);
    assert_eq!(t.verify_timestamp_at(100, &day(100)), Ok(()));
    assert_eq!(t.verify_timestamp_at(100, &day(103)), Ok(()));
    assert_eq!(t.verify_timestamp_at(100, &day(97)), Ok(()));
    assert_eq!(t.verify_timestamp_at(100, &day(104)), Err(4));
    assert_eq!(t.verify_timestamp_at(100, &day(106)), Err(6));
    assert_eq!(t.verify_timestamp_at(100, &day(94)), Err(6));
    // no distance round the circle: day 1 is 1022 days from day 1023
    assert_eq!(t.verify_timestamp_at(1023, &day(1)), Err(1022));
    assert_eq!(t.verify_timestamp_at(100, "?!"), Err(i32::MAX));
    assert_eq!(t.verify_timestamp_at(100, "a"), Err(i32::MAX));
}

#[test]
fn it_stamps_with_the_day_of_the_clock() {
    let t = SRSTimestamper { max_valid_delta: 1 };
    let ts = t.now_as_timestamp();
    assert_eq!(ts.len(), 2);
    let day = SRSTimestamper::base32_email_safe_decode_10bit(&ts).unwrap();
    let now = SRSTimestamper::now_in_days_10bit();
    assert!(day == now || (day + 1) % 1024 == now);
}

#[test]
fn it_refuses_a_bad_hostname_or_separator() {
    let mock = || MockTimestamper { verify: Box::new(|_ts| Ok(())), now: Box::new(|| "aa".to_string()) };
    let r = Receiver::new(b"k".to_vec(), vec![b'a', 0xe9], Digest::Sha512, mock());
    assert!(matches!(r, Err(ReceiverInitializationError::HostnameInvalidChars)));
    let r = Receiver::new(b"k".to_vec(), b"mail-gw=1.example".to_vec(), Digest::Sha512, mock());
    assert!(r.is_ok());

    let f = Forwarder::new(b"k".to_vec(), vec![0xc3, 0xa9], Digest::Sha512, "=", mock());
    assert!(matches!(f, Err(ForwarderInitializationError::HostnameInvalidChars)));
    let f = Forwarder::new(b"k".to_vec(), vec![0xc3, 0xa9], Digest::Sha512, "/", mock());
    assert!(matches!(f, Err(ForwarderInitializationError::HostnameInvalidChars)));
    for bad in vec!["", "/", "@", "==", "=+", "\u{e9}"] {
        let f = Forwarder::new(b"k".to_vec(), b"a".to_vec(), Digest::Sha512, bad, mock());
        assert!(matches!(f, Err(ForwarderInitializationError::InvalidSRSSeparator)));
    }
    let f = Forwarder::new(b"k".to_vec(), b"mail-gw".to_vec(), Digest::Sha512, "-", mock());
    assert!(matches!(f, Err(ForwarderInitializationError::HostnameInvalidChars)));
    for good in vec!["=", "+", "-"] {
        let f = Forwarder::new(b"k".to_vec(), b"a.example".to_vec(), Digest::Sha512, good, mock());
        assert!(f.is_ok());
        assert_eq!(f.unwrap().separator, good);
    }
    let f = Forwarder::new(b"k".to_vec(), b"mail-gw".to_vec(), Digest::Sha512, "=", mock());
    assert!(f.is_ok());
}

#[test]
fn it_forwards_a_plain_address_as_signed_srs0() {
    let f = make_forwarder("bsecret", "b");
    let a = f.forward(Plain { local: "user".to_string(), domain: "a".to_string() }).unwrap();
    // the mock stamps with "aa"
    assert_eq!(a.serialize(), "SRS0=9hRy=aa=a=user@b");
    let a = a.srs0();
    assert_eq!(a.separator, "=");
    assert_eq!(a.tt, "aa");
    assert_eq!(a.hash.len(), 4);
}

#[test]
fn it_signs_the_fields_and_nothing_else() {
    // the hash of SRS0 covers tt, hostname and local part, in this order
    let mac = srs::hash::compute_addr_hash(
        b"bsecret",
        Digest::Sha512,
        &SRSAddress::from_string("SRS0=hhhh=TT=a=user@b").unwrap(),
    )
    .unwrap();
    assert_eq!(mac, "M59m");
    let other_domain = srs::hash::compute_addr_hash(
        b"bsecret",
        Digest::Sha512,
        &SRSAddress::from_string("SRS0+gggg+TT+a+user@elsewhere").unwrap(),
    )
    .unwrap();
    assert_eq!(other_domain, "M59m");
    let other_local = srs::hash::compute_addr_hash(
        b"bsecret",
        Digest::Sha512,
        &SRSAddress::from_string("SRS0=hhhh=TT=a=usex@b").unwrap(),
    )
    .unwrap();
    assert_ne!(other_local, "M59m");
    let srs1 = srs::hash::compute_addr_hash(
        b"csecret",
        Digest::Sha512,
        &SRSAddress::from_string("SRS1=hhhh=b==M59m=TT=a=user@c").unwrap(),
    )
    .unwrap();
    assert_eq!(srs1, "nAM6");
    assert_eq!(
        srs::hash::message_of(&SRSAddress::from_string("SRS0=hhhh=TT=a=user@b").unwrap()),
        b"TTauser".to_vec()
    );
    assert_eq!(
        srs::hash::message_of(&SRSAddress::from_string("SRS1=hhhh=b==M59m=TT=a=user@c").unwrap()),
        b"b=M59m=TT=a=user".to_vec()
    );
}

#[test]
fn it_takes_the_hash_from_the_first_three_octets() {
    assert_eq!(srs::hash::hash_of_mac(b"Man and more").unwrap(), "TWFu");
    assert_eq!(srs::hash::hash_of_mac(&[0xfb, 0xff, 0xbf]).unwrap(), "-_-_");
    assert!(matches!(srs::hash::hash_of_mac(b"Ma"), Err(HashFailure::DigestTooShort)));
    assert!(matches!(srs::hash::hash_of_mac(b""), Err(HashFailure::DigestTooShort)));
}

#[test]
fn it_hashes_with_the_chosen_digest() {
    let a = SRSAddress::from_string("SRS0=hhhh=TT=a=user@b").unwrap();
    let mut seen: Vec<String> = Vec::new();
    for md in vec![Digest::Sha1, Digest::Sha224, Digest::Sha256, Digest::Sha384, Digest::Sha512] {
        let h = srs::hash::compute_addr_hash(b"bsecret", md, &a).unwrap();
        assert_eq!(h.len(), 4);
        assert!(!seen.contains(&h));
        seen.push(h);
    }
    assert_eq!(seen[4], "M59m");
}

#[test]
fn it_receives_with_a_given_hash_and_verdict() {
    let srs0 = SRSAddress::from_string("SRS0=M59m=TT=a=user@b").unwrap();
    let srs1 = SRSAddress::from_string("SRS1=nAM6=b==M59m=TT=a=user@c").unwrap();
    let got = srs::transformers::receive_with(&srs0, "M59m".to_string(), Ok(()));
    assert_eq!(got.unwrap(), "user@a");
    let got = srs::transformers::receive_with(&srs0, "m59M".to_string(), Ok(()));
    assert_eq!(got.unwrap(), "user@a");
    let got = srs::transformers::receive_with(&srs0, "M59m".to_string(), Err(7));
    assert!(matches!(got, Err(ReceiverError::TimestampError(7))));
    let got = srs::transformers::receive_with(&srs0, "M59n".to_string(), Err(7));
    assert!(matches!(got, Err(ReceiverError::HashVerificationFailed(h)) if h == "M59n"));
    let got = srs::transformers::receive_with(&srs0, "M59".to_string(), Ok(()));
    assert!(matches!(got, Err(ReceiverError::HashVerificationFailed(h)) if h == "M59"));
    // the timestamp of an SRS1 address is not judged
    let got = srs::transformers::receive_with(&srs1, "NAM6".to_string(), Err(7));
    assert_eq!(got.unwrap(), "SRS0=M59m=TT=a=user@b");
    assert_eq!(srs::transformers::peel(&srs1), "SRS0=M59m=TT=a=user@b");
}

#[test]
fn it_does_not_ask_the_timestamper_about_a_wrong_hash() {
    let mut b = make_receiver("bsecret", "b");
    b.timestamper = MockTimestamper {
        verify: Box::new(|_ts| panic!("shouldn't be called")),
        now: Box::new(|| panic!("shouldn't be called")),
    };
    expect_receive_err(&b, "SRS0=HHHH=TT=a=user@b", |e| match e {
        ReceiverError::HashVerificationFailed(h) => h == "M59m",
        _ => false,
    });
    expect_receive(&b, "SRS1=sbu-=x==M59m=TT=a=user@b", "SRS0=M59m=TT=a=user@x");
}

#[test]
fn it_peels_a_chain_to_the_address_of_the_first_hop() {
    let f_a = make_forwarder("asecret", "a");
    let f_b = make_forwarder("bsecret", "b");
    let f_c = make_forwarder("csecret", "c");
    let r_b = make_receiver("bsecret", "b");

    let hop0 = f_a.forward(Plain { local: "user".to_string(), domain: "origin".to_string() }).unwrap();
    let first = hop0.serialize();
    let hop1 = f_b.forward(SRS(hop0)).unwrap();
    assert!(hop1.is_1());
    let hop2 = f_c.forward(SRS(hop1)).unwrap();
    assert!(hop2.is_1());
    assert!(hop2.serialize().ends_with("@c"));
    assert_eq!(r_b.receive(&hop2).unwrap(), first);
}

#[test]
fn it_signs_in_place() {
    let f = make_forwarder("bsecret", "b");
    let mut a = SRSAddress::from_string("SRS0=hhhh=TT=a=user@b").unwrap();
    let r: Result<(), ForwarderError> = f.update_hash(&mut a);
    assert!(r.is_ok());
    assert_eq!(a.serialize(), "SRS0=M59m=TT=a=user@b");
    let unsigned = f.rewrite(Plain { local: "user".to_string(), domain: "a".to_string() }, "TT".to_string());
    assert_eq!(unsigned.serialize(), "SRS0==TT=a=user@b");
}

#[test]
fn it_receives_whatever_the_case_of_the_hash() {
    let b = make_receiver("bsecret", "b");
    let hash = ['M', '5', '9', 'm'];
    for mask in 0..16u32 {
        let mut changed = String::new();
        for (i, c) in hash.iter().enumerate() {
            if mask & (1 << i) != 0 {
                changed.push(c.to_ascii_uppercase());
            } else {
                changed.push(c.to_ascii_lowercase());
            }
        }
        expect_receive(&b, &format!("SRS0={}=TT=a=user@b", changed), "user@a");
    }
    expect_receive_err(&b, "SRS0=M59n=TT=a=user@b", |e| match e {
        ReceiverError::HashVerificationFailed(h) => h == "M59m",
        _ => false,
    });
}

#[test]
fn it_receives_what_it_forwarded() {
    for md in vec![Digest::Sha1, Digest::Sha224, Digest::Sha256, Digest::Sha384, Digest::Sha512] {
        for sep in vec!["=", "+", "-"] {
            let f = Forwarder::new(
                b"shared".to_vec(),
                b"fwd.example".to_vec(),
                md,
                sep,
                SRSTimestamper { max_valid_delta: 2 },
            )
            .unwrap();
            let r = Receiver::new(
                b"shared".to_vec(),
                b"fwd.example".to_vec(),
                md,
                SRSTimestamper { max_valid_delta: 2 },
            )
            .unwrap();
            let sent = f
                .forward(Plain { local: "j\u{f6}rg".to_string(), domain: "b\u{fc}cher.example".to_string() })
                .unwrap();
            assert!(sent.is_0());
            assert_eq!(r.receive(&sent).unwrap(), "j\u{f6}rg@b\u{fc}cher.example");
            let other = Receiver::new(
                b"other".to_vec(),
                b"fwd.example".to_vec(),
                md,
                SRSTimestamper { max_valid_delta: 2 },
            )
            .unwrap();
            assert!(matches!(other.receive(&sent), Err(ReceiverError::HashVerificationFailed(_))));
        }
    }
}

#[test]
fn it_refuses_a_stale_timestamp() {
    let f = Forwarder::new(
        b"shared".to_vec(),
        b"b".to_vec(),
        Digest::Sha512,
        "=",
        MockTimestamper { verify: Box::new(|_ts| Ok(())), now: Box::new(|| "!!".to_string()) },
    )
    .unwrap();
    let r = Receiver::new(
        b"shared".to_vec(),
        b"b".to_vec(),
        Digest::Sha512,
        SRSTimestamper { max_valid_delta: 2 },
    )
    .unwrap();
    let sent = f.forward(Plain { local: "user".to_string(), domain: "a".to_string() }).unwrap();
    assert!(matches!(r.receive(&sent), Err(ReceiverError::TimestampError(i32::MAX))));
}
