use cmux::gl_environment::{append_flags, updates};

fn plan(version: (u32, u32, u32)) -> Vec<(&'static str, Vec<&'static str>)> {
    updates(version)
        .into_iter()
        .map(|update| (update.variable, update.flags))
        .collect()
}

#[test]
fn workarounds_follow_the_gtk_version() {
    assert_eq!(plan((4, 12, 0)), vec![("GDK_DEBUG", vec!["gl-prefer-gl"])]);
    assert_eq!(
        plan((4, 14, 2)),
        vec![
            ("GDK_DEBUG", vec!["gl-prefer-gl"]),
            ("GDK_DEBUG", vec!["gl-disable-gles", "vulkan-disable"])
        ]
    );
    for version in [(4, 16, 0), (4, 22, 4), (4, 20, 9)] {
        assert_eq!(
            plan(version),
            vec![
                ("GDK_DEBUG", vec!["gl-prefer-gl"]),
                ("GDK_DISABLE", vec!["gles-api", "vulkan"]),
                ("GDK_DISABLE", vec!["dmabuf"])
            ]
        );
    }
    for version in [(4, 22, 5), (5, 0, 0)] {
        assert_eq!(
            plan(version),
            vec![
                ("GDK_DEBUG", vec!["gl-prefer-gl"]),
                ("GDK_DISABLE", vec!["gles-api", "vulkan"])
            ]
        );
    }
}

#[test]
fn flags_merge_without_duplicates() {
    assert_eq!(append_flags("", &["a", "b"]), "a,b");
    assert_eq!(append_flags("x:gl-prefer-gl", &["gl-prefer-gl"]), "x:gl-prefer-gl");
    assert_eq!(
        append_flags("gl-prefer-glx", &["gl-prefer-gl"]),
        "gl-prefer-glx,gl-prefer-gl"
    );
    assert_eq!(append_flags("a b", &["b", "c"]), "a b,c");
    assert_eq!(append_flags("vulkan,", &["vulkan", "dmabuf"]), "vulkan,,dmabuf");
}
