use cmux::browser_refs::{daemon_action, read_u32, ref_name, SurfaceRefs};

fn chars(s: &str) -> Vec<char> {
    s.chars().collect()
}

#[test]
fn numbers_read_like_u32_from_str() {
    assert_eq!(read_u32(&chars("42")), Some(42));
    assert_eq!(read_u32(&chars("+7")), Some(7));
    assert_eq!(read_u32(&chars("007")), Some(7));
    assert_eq!(read_u32(&chars("4294967295")), Some(u32::MAX));
    for bad in ["", "+", "-1", "1a", " 1", "4294967296", "99999999999999999999"] {
        assert_eq!(read_u32(&chars(bad)), None, "{bad}");
        assert_eq!(read_u32(&chars(bad)), bad.parse::<u32>().ok(), "{bad}");
    }
}

#[test]
fn references_resolve_to_registered_surfaces() {
    let mut refs = SurfaceRefs::new();
    assert_eq!(refs.register("uuid-a".to_owned()), 1);
    assert_eq!(refs.register("uuid-b".to_owned()), 2);
    assert_eq!(
        refs.list(),
        vec![
            ("surface:1".to_owned(), "uuid-a".to_owned()),
            ("surface:2".to_owned(), "uuid-b".to_owned())
        ]
    );
    assert_eq!(refs.resolve("surface:2"), Ok("uuid-b".to_owned()));
    assert_eq!(refs.resolve("surface:+1"), Ok("uuid-a".to_owned()));
    assert_eq!(
        refs.resolve("surface:09"),
        Err((
            "surface:9 not found".to_owned(),
            vec!["surface:1".to_owned(), "surface:2".to_owned()]
        ))
    );
    assert_eq!(refs.resolve("surface:x"), Ok("surface:x".to_owned()));
    assert_eq!(refs.resolve("3f2a-uuid"), Ok("3f2a-uuid".to_owned()));
    assert_eq!(ref_name(4_000_000_000), "surface:4000000000");
}

#[test]
fn cli_actions_map_to_daemon_names() {
    for (cli, daemon) in [
        ("open", "launch"),
        ("goto", "navigate"),
        ("eval", "evaluate"),
        ("gethtml", "innerhtml"),
        ("stream.enable", "stream_enable"),
        ("stream.disable", "stream_disable"),
        ("click", "click"),
    ] {
        assert_eq!(daemon_action(cli), daemon);
    }
}
