use rust_md::model::{PrivateConfig, TransformError, UserConfig};
use rust_md::transform::{markdown_to_html, target_visibility, transform_targets};

fn lock() -> Vec<u8> {
    vec![240u8, 159u8, 148u8, 146u8]
}

fn config() -> UserConfig {
    UserConfig {
        root_path: b"/v".to_vec(),
        ignore: vec![],
        private: PrivateConfig { expose: false, icon: lock() },
    }
}

fn html_text(bytes: &[u8]) -> String {
    String::from_utf8(bytes.to_vec()).unwrap()
}

#[test]
fn renders_heading() {
    let (html, _, links) = markdown_to_html(b"A.md", b"A", b"# Hi\n", &config(), &vec![]).unwrap();
    assert!(html_text(&html).contains("<h1>Hi</h1>"));
    assert!(links.is_empty());
}

#[test]
fn discovers_sibling_target() {
    let targets = transform_targets(b"A.md", b"See [B](./B.md).\n");
    assert_eq!(targets, vec![b"B.md".to_vec()]);
}

#[test]
fn discovers_targets_in_document_order() {
    let md = b"[x](./X.md) then [y](sub/Y.md) and [w](https://example.com/z.md)\n";
    let targets = transform_targets(b"d/A.md", md);
    assert_eq!(targets, vec![b"d/X.md".to_vec(), b"d/sub/Y.md".to_vec()]);
}

#[test]
fn private_target_link_is_disabled_and_marked() {
    let a_md = b"---\npublic: true\n---\nSee [B](./B.md).\n";
    let b_md = b"---\npublic: false\n---\n# B\n";
    let (html, meta, links) = markdown_to_html(
        b"A.md",
        b"A",
        a_md,
        &config(),
        &vec![Some(b_md.to_vec())],
    )
        .unwrap();
    assert_eq!(meta.public, Some(true));
    let text = html_text(&html);
    assert!(text.contains("<a href=\"#\" title=\"private file\">\u{1F512} B</a>"));
    assert!(!text.contains("B.md"));
    assert_eq!(links.len(), 1);
    assert_eq!(links[0].source, b"A".to_vec());
    assert_eq!(links[0].target, b"B".to_vec());
    assert_eq!(links[0].target_path, b"B.md".to_vec());
    assert_eq!(links[0].target_public, Some(false));
}

#[test]
fn public_target_link_keeps_anchor_without_extension() {
    let a_md = b"See [B](./B.md).\n";
    let b_md = b"---\npublic: true\n---\n# B\n";
    let (html, _, links) = markdown_to_html(
        b"A.md",
        b"A",
        a_md,
        &config(),
        &vec![Some(b_md.to_vec())],
    )
        .unwrap();
    let text = html_text(&html);
    assert!(text.contains("<a href=\"./B\">B</a>"));
    assert_eq!(links[0].target_public, Some(true));
}

#[test]
fn unreadable_target_is_recorded_and_disabled() {
    let a_md = b"See [B](./B.md).\n";
    let (html, _, links) = markdown_to_html(b"A.md", b"A", a_md, &config(), &vec![None]).unwrap();
    assert!(html_text(&html).contains("<a href=\"#\" title=\"private file\">"));
    assert_eq!(links[0].target_public, None);
}

#[test]
fn missing_target_entry_counts_as_unreadable() {
    let a_md = b"See [B](./B.md).\n";
    let (html, _, links) = markdown_to_html(b"A.md", b"A", a_md, &config(), &vec![]).unwrap();
    assert!(html_text(&html).contains("<a href=\"#\" title=\"private file\">"));
    assert_eq!(links[0].target_public, None);
}

#[test]
fn exposing_policy_keeps_private_links_navigable() {
    let mut cfg = config();
    cfg.private.expose = true;
    let a_md = b"See [B](./B.md).\n";
    let b_md = b"---\npublic: false\n---\n";
    let (html, _, links) = markdown_to_html(
        b"A.md",
        b"A",
        a_md,
        &cfg,
        &vec![Some(b_md.to_vec())],
    )
        .unwrap();
    assert!(html_text(&html).contains("<a href=\"./B\">B</a>"));
    assert_eq!(links[0].target_public, Some(false));
}

#[test]
fn every_repeated_private_link_is_disabled() {
    let a_md = b"[one](./B.md) and [two](./B.md)\n";
    let b_md = b"---\npublic: false\n---\n";
    let (html, _, links) = markdown_to_html(
        b"A.md",
        b"A",
        a_md,
        &config(),
        &vec![Some(b_md.to_vec()), Some(b_md.to_vec())],
    )
        .unwrap();
    let text = html_text(&html);
    assert!(!text.contains("B.md"));
    assert_eq!(text.matches("<a href=\"#\" title=\"private file\">").count(), 2);
    assert_eq!(links.len(), 2);
}

#[test]
fn network_links_stand_unchanged() {
    let a_md = b"A [site](https://example.com/page.md).\n";
    let (html, _, links) = markdown_to_html(b"A.md", b"A", a_md, &config(), &vec![]).unwrap();
    assert!(html_text(&html).contains("<a href=\"https://example.com/page.md\">site</a>"));
    assert!(links.is_empty());
}

#[test]
fn malformed_own_frontmatter_fails_the_document() {
    let r = markdown_to_html(b"A.md", b"A", b"---\nfoo: [\n---\n", &config(), &vec![]);
    assert!(matches!(r, Err(TransformError::MalformedMetadata { .. })));
}

#[test]
fn callout_becomes_titled_container() {
    let md = b"> [!WARNING]\n> Blockquote test\n";
    let (html, _, _) = markdown_to_html(b"A.md", b"A", md, &config(), &vec![]).unwrap();
    let text = html_text(&html);
    assert!(text.contains("<blockquote class=\"callout\">"));
    assert!(text.contains("<p class=\"callout-title\">\u{26A0} WARNING</p>"));
    assert!(text.contains("<p>Blockquote test</p>"));
}

#[test]
fn callout_types_are_case_insensitive_with_icons() {
    let md = b"> [!tip]\n> Try it\n";
    let (html, _, _) = markdown_to_html(b"A.md", b"A", md, &config(), &vec![]).unwrap();
    let text = html_text(&html);
    assert!(text.contains("<p class=\"callout-title\">\u{1F4A1} TIP</p>"));
}

#[test]
fn unknown_callout_type_gets_default_icon() {
    let md = b"> [!ODD]\n> Hm\n";
    let (html, _, _) = markdown_to_html(b"A.md", b"A", md, &config(), &vec![]).unwrap();
    assert!(html_text(&html).contains("<p class=\"callout-title\">\u{1F4CC} ODD</p>"));
}

#[test]
fn parent_image_sources_become_root_relative() {
    let md = b"![pic](../../img/p.png)\n";
    let (html, _, _) = markdown_to_html(b"a/b/C.md", b"a/b/C", md, &config(), &vec![]).unwrap();
    assert!(html_text(&html).contains("<img src=\"/img/p.png\""));
}

#[test]
fn plain_image_sources_stand() {
    let md = b"![pic](img/p.png)\n";
    let (html, _, _) = markdown_to_html(b"C.md", b"C", md, &config(), &vec![]).unwrap();
    assert!(html_text(&html).contains("<img src=\"img/p.png\""));
}

#[test]
fn target_visibility_cases() {
    assert_eq!(target_visibility(&None), None);
    assert_eq!(target_visibility(&Some(b"---\npublic: true\n---\n".to_vec())), Some(true));
    assert_eq!(target_visibility(&Some(b"---\npublic: false\n---\n".to_vec())), Some(false));
    assert_eq!(target_visibility(&Some(b"no frontmatter".to_vec())), Some(false));
    assert_eq!(target_visibility(&Some(b"---\nfoo: [\n---\n".to_vec())), Some(false));
}

#[test]
fn gfm_tables_and_strikethrough_render() {
    let md = b"a ~~gone~~\n\n| h |\n| - |\n| c |\n";
    let (html, _, _) = markdown_to_html(b"A.md", b"A", md, &config(), &vec![]).unwrap();
    let text = html_text(&html);
    assert!(text.contains("<del>gone</del>"));
    assert!(text.contains("<table>"));
}
