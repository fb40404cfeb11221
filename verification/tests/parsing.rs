use ca::config::{parse_ca_type, parse_init_type, parse_size, CAType, Config, InitType};
use ca::digits::{parse_u32_str, parse_u8_str, split_str, str_eq};
use ca::flags;
use ca::nb::Neighborhood;

fn strings(parts: &[&str]) -> Vec<String> {
    parts.iter().map(|p| String::from(*p)).collect()
}

#[test]
fn test_parse_u32_str_cases() {
    assert_eq!(parse_u32_str("0"), Some(0));
    assert_eq!(parse_u32_str("+42"), Some(42));
    assert_eq!(parse_u32_str("4294967295"), Some(4294967295));
    assert_eq!(parse_u32_str("4294967296"), None);
    assert_eq!(parse_u32_str(""), None);
    assert_eq!(parse_u32_str("+"), None);
    assert_eq!(parse_u32_str("12x"), None);
    assert_eq!(parse_u8_str("255"), Some(255));
    assert_eq!(parse_u8_str("256"), None);
}

#[test]
fn test_split_and_compare() {
    let parts = split_str("a,,b", ',');
    assert_eq!(parts, vec!["a", "", "b"]);
    assert_eq!(split_str("", ';'), vec![""]);
    assert!(str_eq("same", "same"));
    assert!(!str_eq("same", "sam"));
}

#[test]
fn test_parse_ca_type_variants() {
    let t = parse_ca_type(&strings(&["1", "2", "3", "random"])).unwrap();
    assert_eq!(t, CAType::CA1 { radius: 2, states: 3, code: None });
    let t = parse_ca_type(&strings(&["1", "1", "2", "01101110"])).unwrap();
    assert_eq!(
        t,
        CAType::CA1 { radius: 1, states: 2, code: Some(String::from("01101110")) }
    );
    let t = parse_ca_type(&strings(&["elementary", "110"])).unwrap();
    assert_eq!(t, CAType::Elementary(110));
    let t = parse_ca_type(&strings(&["cyclic", "m1", "3", "4"])).unwrap();
    assert_eq!(t, CAType::Cyclic(Neighborhood::Moore(1), 3, 4));
    let t = parse_ca_type(&strings(&["cyclic", "n2", "1", "8"])).unwrap();
    assert_eq!(t, CAType::Cyclic(Neighborhood::VonNeumann(2), 1, 8));
    let t = parse_ca_type(&strings(&["life", "2,3", "3"])).unwrap();
    assert_eq!(t, CAType::Life(vec![2, 3], vec![3]));
    let t = parse_ca_type(&strings(&["life", "empty", "3"])).unwrap();
    assert_eq!(t, CAType::Life(vec![], vec![3]));
}

#[test]
fn test_parse_ca_type_errors() {
    assert_eq!(parse_ca_type(&strings(&[])).unwrap_err(), "Specify CA type!");
    assert_eq!(parse_ca_type(&strings(&["foo"])).unwrap_err(), "Unknown CA type!");
    assert_eq!(
        parse_ca_type(&strings(&["elementary", "256"])).unwrap_err(),
        "CODE must be unsigned 8-bit integer!"
    );
    assert_eq!(
        parse_ca_type(&strings(&["elementary", "5", "extra"])).unwrap_err(),
        "Trailing args!"
    );
    assert_eq!(
        parse_ca_type(&strings(&["cyclic", "x1", "3", "4"])).unwrap_err(),
        "Neighborhood must start with 'm' or 'n'!"
    );
    assert_eq!(
        parse_ca_type(&strings(&["cyclic", "m", "3", "4"])).unwrap_err(),
        "Neighborhood range must be unsigned 32-bit integer!"
    );
    assert_eq!(
        parse_ca_type(&strings(&["1", "2", "3"])).unwrap_err(),
        "Specify CODE value!"
    );
    assert_eq!(
        parse_ca_type(&strings(&["life", "2,x", "3"])).unwrap_err(),
        "Invalid SURVIVE value!"
    );
}

#[test]
fn test_parse_init_type_random() {
    let elementary = CAType::Elementary(30);
    let cyclic = CAType::Cyclic(Neighborhood::Moore(1), 1, 4);

    let t = parse_init_type(None, &elementary).unwrap();
    assert_eq!(
        t,
        InitType::Random { states: vec![0, 1], x1: None, x2: None, y1: None, y2: None }
    );
    let t = parse_init_type(Some(String::from("random:uniform")), &cyclic).unwrap();
    assert_eq!(
        t,
        InitType::Random { states: vec![0, 1, 2, 3], x1: None, x2: None, y1: None, y2: None }
    );
    let t = parse_init_type(Some(String::from("random:1*3,2")), &cyclic).unwrap();
    assert_eq!(
        t,
        InitType::Random { states: vec![1, 1, 1, 2], x1: None, x2: None, y1: None, y2: None }
    );
    let t = parse_init_type(Some(String::from("random:uniform:2,5")), &cyclic).unwrap();
    assert_eq!(
        t,
        InitType::Random {
            states: vec![0, 1, 2, 3],
            x1: Some(2),
            x2: Some(5),
            y1: None,
            y2: None
        }
    );
    assert_eq!(
        parse_init_type(Some(String::from("random:")), &elementary).unwrap_err(),
        "STATES is not set!"
    );
    assert_eq!(
        parse_init_type(Some(String::from("random:uniform:1,2,3,4")), &elementary).unwrap_err(),
        "random: Y1 and Y2 values are disabled for 1D CA!"
    );
    assert_eq!(
        parse_init_type(Some(String::from("bogus")), &elementary).unwrap_err(),
        "Unknown initialization type!"
    );
}

#[test]
fn test_parse_init_type_points() {
    let elementary = CAType::Elementary(30);
    let life = CAType::Life(vec![2, 3], vec![3]);
    let t = parse_init_type(Some(String::from("points:1;3")), &elementary).unwrap();
    assert_eq!(t, InitType::Points1D(vec![1, 3]));
    let t = parse_init_type(Some(String::from("points:1,2;3,4")), &life).unwrap();
    assert_eq!(t, InitType::Points2D(vec![(1, 2), (3, 4)]));
    assert_eq!(
        parse_init_type(Some(String::from("points:1,2,3")), &life).unwrap_err(),
        "Invalid POINTS value!"
    );
    assert_eq!(
        parse_init_type(Some(String::from("points:")), &life).unwrap_err(),
        "POINTS is not set!"
    );
}

#[test]
fn test_parse_size_option() {
    assert_eq!(parse_size(None).unwrap(), None);
    assert_eq!(parse_size(Some(String::from("800x600"))).unwrap(), Some((800, 600)));
    assert_eq!(
        parse_size(Some(String::from("800"))).unwrap_err(),
        "Specify size as WIDTHxHEIGHT!"
    );
    assert_eq!(parse_size(Some(String::from("ax5"))).unwrap_err(), "Invalid width!");
    assert_eq!(parse_size(Some(String::from("5xa"))).unwrap_err(), "Invalid height!");
}

#[test]
fn test_config_build() {
    let cfg = Config::build(
        &strings(&["elementary", "110"]),
        None,
        Some(String::from("100x50")),
        Some(String::from("5")),
        Some(String::from("10")),
    )
    .unwrap();
    assert_eq!(cfg.ca_type, CAType::Elementary(110));
    assert_eq!(
        cfg.init_type,
        InitType::Random { states: vec![0, 1], x1: None, x2: None, y1: None, y2: None }
    );
    assert_eq!(cfg.size, Some((100, 50)));
    assert_eq!(cfg.cell_width, Some(5));
    assert_eq!(cfg.delay, Some(10));

    assert_eq!(
        Config::build(&strings(&["elementary", "1"]), None, None, Some(String::from("x")), None)
            .unwrap_err(),
        "Cell width must be unsigned 8-bit integer!"
    );
    assert_eq!(
        Config::build(&strings(&["elementary", "1"]), None, None, None, Some(String::from("y")))
            .unwrap_err(),
        "Delay must be unsigned 32-bit integer!"
    );
}

#[test]
fn test_flags_parse_args() {
    let opts = flags::parse_args(strings(&[
        "prog",
        "elementary",
        "110",
        "random",
        "default",
        "100x50",
        "5",
        "20",
    ]))
    .unwrap();
    assert_eq!(opts.automaton_type, flags::AutomatonType::Elementary(110));
    assert_eq!(opts.init_type, flags::InitType::Random(vec![0, 1]));
    assert_eq!(opts.size, Some((100, 50)));
    assert_eq!(opts.cell_width, Some(5));
    assert_eq!(opts.delay, 20);

    let opts = flags::parse_args(strings(&["prog", "cyclic", "n2", "3", "8", "random"])).unwrap();
    assert_eq!(
        opts.automaton_type,
        flags::AutomatonType::Cyclic(Neighborhood::VonNeumann(2), 3, 8)
    );
    assert_eq!(
        opts.init_type,
        flags::InitType::Random(vec![0, 1, 2, 3, 4, 5, 6, 7])
    );
    assert_eq!(opts.size, None);
    assert_eq!(opts.cell_width, None);
    assert_eq!(opts.delay, 5);

    let opts = flags::parse_args(strings(&[
        "prog", "life", "2,3", "3", "points", "1,1;2,2",
    ]))
    .unwrap();
    assert_eq!(opts.automaton_type, flags::AutomatonType::Life(vec![2, 3], vec![3]));
    assert_eq!(opts.init_type, flags::InitType::Points2D(vec![(1, 1), (2, 2)]));

    let opts = flags::parse_args(strings(&[
        "prog", "elementary", "30", "random", "1*2,0",
    ]))
    .unwrap();
    assert_eq!(opts.init_type, flags::InitType::Random(vec![1, 1, 0]));

    let opts = flags::parse_args(strings(&[
        "prog", "elementary", "30", "points", "0,3,7",
    ]))
    .unwrap();
    assert_eq!(opts.init_type, flags::InitType::Points1D(vec![0, 3, 7]));
}

#[test]
fn test_flags_parse_args_errors() {
    assert_eq!(
        flags::parse_args(strings(&["prog"])).unwrap_err(),
        "Specify automaton type!"
    );
    assert_eq!(
        flags::parse_args(strings(&["prog", "elementary", "300"])).unwrap_err(),
        "Rule code must be in range 0-255!"
    );
    assert_eq!(
        flags::parse_args(strings(&["prog", "cyclic", "m1", "300", "4"])).unwrap_err(),
        "Threshold must be in range 0..255!"
    );
    assert_eq!(
        flags::parse_args(strings(&["prog", "elementary", "30"])).unwrap_err(),
        "Specify initialization type!"
    );
    assert_eq!(
        flags::parse_args(strings(&["prog", "elementary", "30", "huh"])).unwrap_err(),
        "Unknown initialization type!"
    );
    assert_eq!(
        flags::parse_args(strings(&["prog", "elementary", "30", "random", "default", "5x5", "1", "1", "zzz"]))
            .unwrap_err(),
        "Trailing args!"
    );
    assert_eq!(
        flags::parse_args(strings(&["prog", "elementary", "30", "random", "default", "nope"]))
            .unwrap_err(),
        "Size must me specified as WIDTHxHEIGHT!"
    );
}
