use github_profile::error::Error;
use github_profile::profile::{Profile, Theme};
use github_profile::text::milli_string;
use github_profile::usage::LangUsage;

fn profile_with(langs: &[(&str, u64)]) -> Profile {
    let mut p = Profile::default();
    p.top_langs = langs.iter().map(|(n, s)| (n.to_string(), *s)).collect();
    p
}

fn bar_widths(doc: &str) -> Vec<String> {
    doc.split("<rect ")
        .skip(1)
        .map(|r| {
            let start = r.find("width=\"").unwrap() + 7;
            let end = start + r[start..].find('"').unwrap();
            r[start..end].to_string()
        })
        .collect()
}

#[test]
fn render_whole_document() {
    let doc = profile_with(&[("Rust", 100), ("Go", 50)]).genSvg().unwrap();
    let expected = [
        "<svg version=\"1.1\" baseProfile=\"full\"\n     width=\"600\" height=\"90\"\n     xmlns=\"http://www.w3.org/2000/svg\">",
        "<style>\ntext\n{\nfont-family: monospace;\nfill: rgb(201, 209, 217);\nfont-size: 12px;\n}\n.LangBar\n{\nfill: rgb(201, 209, 217);\n}\n  </style>",
        "<text x=\"0\" y=\"18\" width=\"100%\">Top languages:</text>",
        "<text x=\"130\" y=\"36\" width=\"130\"\ntext-anchor=\"end\" >Rust</text>",
        "<rect class=\"LangBar\" x=\"150\" y=\"24\" width=\"450\"\nheight=\"12\" />",
        "<text x=\"130\" y=\"54\" width=\"130\"\ntext-anchor=\"end\" >Go</text>",
        "<rect class=\"LangBar\" x=\"150\" y=\"42\" width=\"225\"\nheight=\"12\" />",
        "<text x=\"0\" y=\"72\" style=\"font-size: 8px\">\nThis is a test.</text>",
        "</svg>\n",
    ]
    .join("\n");
    assert_eq!(doc, expected);
}

#[test]
fn render_half_size_gets_half_bar() {
    let doc = profile_with(&[("X", 100), ("Y", 50)]).genSvg().unwrap();
    assert_eq!(bar_widths(&doc), vec!["450".to_string(), "225".to_string()]);
}

#[test]
fn render_zero_sizes_give_zero_bars() {
    let doc = profile_with(&[("X", 0), ("Y", 0)]).genSvg().unwrap();
    assert_eq!(bar_widths(&doc), vec!["0".to_string(), "0".to_string()]);
}

#[test]
fn render_is_deterministic() {
    let p = profile_with(&[("Rust", 123), ("Go", 45), ("C", 6)]);
    let a = p.genSvg().unwrap();
    let b = p.genSvg().unwrap();
    assert_eq!(a.as_bytes(), b.as_bytes());
    let q = profile_with(&[("Rust", 123), ("Go", 45), ("C", 6)]);
    assert_eq!(q.genSvg().unwrap(), a);
}

#[test]
fn render_fractional_bars() {
    let doc = profile_with(&[("A", 7), ("B", 2), ("C", 1)]).genSvg().unwrap();
    // 450 * 2 / 7 = 128.5714..., 450 / 7 = 64.2857...
    assert_eq!(
        bar_widths(&doc),
        vec!["450".to_string(), "128.571".to_string(), "64.285".to_string()]
    );
    let doc = profile_with(&[("A", 8), ("B", 1)]).genSvg().unwrap();
    assert_eq!(bar_widths(&doc), vec!["450".to_string(), "56.25".to_string()]);
}

#[test]
fn render_odd_font_size_gives_half_units() {
    let mut p = profile_with(&[("Rust", 1)]);
    p.font_size = 13;
    let doc = p.genSvg().unwrap();
    assert!(doc.contains("height=\"78\""));
    assert!(doc.contains("<text x=\"0\" y=\"19.5\" width=\"100%\">Top languages:</text>"));
    assert!(doc.contains("y=\"26\" width=\"450\"\nheight=\"13\" />"));
    assert!(doc.contains("font-size: 13px;"));
}

#[test]
fn render_light_theme_uses_black() {
    let mut p = profile_with(&[("Rust", 1)]);
    p.theme = Theme::Light;
    assert_eq!(p.colorForeground(), "black");
    let doc = p.genSvg().unwrap();
    assert!(doc.contains("fill: black;\nfont-size: 12px;"));
    assert!(doc.contains(".LangBar\n{\nfill: black;\n}"));
    assert_eq!(profile_with(&[]).colorForeground(), "rgb(201, 209, 217)");
}

#[test]
fn render_empty_is_an_error() {
    assert_eq!(profile_with(&[]).genSvg(), Err(Error::EmptyInput));
}

#[test]
fn render_narrow_canvas_is_an_error() {
    let mut p = profile_with(&[("Rust", 1)]);
    p.width = 470;
    assert_eq!(p.genSvg(), Err(Error::InvalidConfig));
    p.width = 471;
    assert!(p.genSvg().unwrap().contains("<text x=\"1\" y=\"36\" width=\"1\""));
    let mut p = profile_with(&[]);
    p.font_size = 0;
    assert_eq!(p.genSvg(), Err(Error::InvalidConfig));
}

#[test]
fn profile_defaults() {
    let p = Profile::default();
    assert_eq!(p.width, 600);
    assert_eq!(p.font_size, 12);
    assert_eq!(p.top_langs_count, 5);
    assert_eq!(p.top_langs_ignored, vec!["HTML".to_string()]);
    assert_eq!(p.top_langs_text_width, 150);
    assert_eq!(p.theme, Theme::Dark);
    assert!(p.top_langs.is_empty());
}

#[test]
fn rank_usage_then_render() {
    let mut u = LangUsage::new();
    for (n, s) in [("HTML", 9000), ("Rust", 500), ("Go", 300)] {
        u.add(&n.to_string(), s).unwrap();
    }
    let mut p = Profile::default();
    p.rankUsage(u);
    assert_eq!(
        p.top_langs,
        vec![("Rust".to_string(), 500), ("Go".to_string(), 300)]
    );
    let doc = p.genSvg().unwrap();
    assert!(!doc.contains("HTML"));
    assert_eq!(bar_widths(&doc), vec!["450".to_string(), "270".to_string()]);
}

#[test]
fn theme_names() {
    assert_eq!(Theme::parse("light"), Ok(Theme::Light));
    assert_eq!(Theme::parse("dark"), Ok(Theme::Dark));
    assert_eq!(Theme::parse("Dark"), Err(Error::InvalidTheme("Dark".to_string())));
    assert_eq!(Theme::parse(""), Err(Error::InvalidTheme(String::new())));
    assert_eq!("light".parse::<Theme>(), Ok(Theme::Light));
    assert_eq!("dark".parse::<Theme>(), Ok(Theme::Dark));
    assert_eq!("dark ".parse::<Theme>(), Err(Error::InvalidTheme("dark ".to_string())));
    assert_eq!("Light".parse::<Theme>(), Err(Error::InvalidTheme("Light".to_string())));
    assert_eq!(
        Error::InvalidTheme("blue".to_string()).message(),
        "Invalid theme: blue"
    );
}

#[test]
fn milli_text_forms() {
    assert_eq!(milli_string(0), "0");
    assert_eq!(milli_string(18000), "18");
    assert_eq!(milli_string(19500), "19.5");
    assert_eq!(milli_string(56250), "56.25");
    assert_eq!(milli_string(128571), "128.571");
    assert_eq!(milli_string(5), "0.005");
    assert_eq!(milli_string(1050), "1.05");
    assert_eq!(milli_string(1234567000), "1234567");
}
