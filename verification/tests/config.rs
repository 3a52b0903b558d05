use lonetypist::config::Config;

#[test]
fn defaults_are_the_authentic_ones() {
    let c = Config::default();
    assert!(c.effects, "the CRT is the point");
    assert!(!c.dense, "80x25 is the default text mode");
    assert!(!c.fullscreen);
    assert_eq!(c.window, (1080, 810), "4:3");
}
