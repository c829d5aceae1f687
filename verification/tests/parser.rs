use formula_parser::capture::{CapturedAttributes, FieldKind};
use formula_parser::eval::evaluate;
use formula_parser::filter::filter;
use formula_parser::ident::derive_identifier;
use formula_parser::{parse_formula, ParseError};

const A2PS_SOURCE: &str = r##"class A2ps < Formula
  desc "Any-to-PostScript filter"
  homepage "https://www.gnu.org/software/a2ps/"
  url "https://ftp.gnu.org/gnu/a2ps/a2ps-4.15.7.tar.gz"
  sha256 "a566cbd3c01598f7e4b3a183955b1e9e5e588d59c7bad4d2b3b7ae898e9d7400"
  license "GPL-3.0-or-later"

  bottle do
    sha256 cellar: :any, arm64_sonoma: "0000000000000000000000000000000000000000000000000000000000000000"
  end

  depends_on "gperf" => :build
  depends_on "libpaper"

  def install
    system "./configure", "--prefix=#{prefix}"
    system "make", "install"
  end

  test do
    assert_match "a2ps", shell_output("#{bin}/a2ps --version")
  end
end
"##;

#[test]
fn it_parses_a2ps() {
    let formula_result = parse_formula("a2ps", A2PS_SOURCE);
    assert!(formula_result.is_ok(), "Failed to parse formula: {:?}", formula_result.err());
    let formula = formula_result.unwrap();

    assert_eq!(formula.name, "a2ps");
    assert!(formula.description.is_some());
    assert!(formula.homepage.is_some());
    assert!(formula.url.is_some());
    assert!(formula.sha256.is_some());
}

#[test]
fn derives_single_segment() {
    assert_eq!(derive_identifier("a2ps").unwrap(), "A2ps");
}

#[test]
fn derives_hyphenated_segments() {
    assert_eq!(derive_identifier("lib-png").unwrap(), "LibPng");
}

#[test]
fn derives_across_empty_segments() {
    assert_eq!(derive_identifier("a--b").unwrap(), "AB");
    assert_eq!(derive_identifier("-x").unwrap(), "X");
    assert_eq!(derive_identifier("x-").unwrap(), "X");
}

#[test]
fn derive_rejects_empty_stem() {
    assert!(matches!(derive_identifier(""), Err(ParseError::InvalidIdentifier)));
}

#[test]
fn derive_rejects_separator_only_stems() {
    assert!(matches!(derive_identifier("-"), Err(ParseError::InvalidIdentifier)));
    assert!(matches!(derive_identifier("---"), Err(ParseError::InvalidIdentifier)));
}

#[test]
fn filter_keeps_declarations_in_order() {
    let source = "class Foo < Formula\n  desc \"d\"\n  homepage \"h\"\n  def install\n  url \"u\"\nend\n";
    assert_eq!(filter(source), "  desc \"d\"\n  homepage \"h\"\n  url \"u\"");
}

#[test]
fn filter_keeps_primary_sha256_only() {
    let source = "  sha256 \"deadbeef\"\n  sha256 cellar: :any, some_key: \"deadbeef\"";
    assert_eq!(filter(source), "  sha256 \"deadbeef\"");
}

#[test]
fn filter_drops_bare_keyword_lines() {
    assert_eq!(filter("desc \ndesc \"d\""), "desc \"d\"");
    assert_eq!(filter("  url   "), "");
    assert_eq!(filter("  desc \"d\"  "), "  desc \"d\"  ");
}

#[test]
fn filter_drops_everything_unrecognized() {
    assert_eq!(filter(""), "");
    assert_eq!(filter("def install\n  system \"make\"\nend"), "");
}

#[test]
fn filter_is_idempotent_on_samples() {
    let samples = [
        A2PS_SOURCE,
        "",
        "desc \"d\"",
        "  url \"u\"\r\njunk\n\n  sha256 \"s\"\n",
        "no declarations\nat all",
    ];
    for source in samples {
        let once = filter(source);
        assert_eq!(filter(&once), once);
    }
}

#[test]
fn round_trip_extracts_declared_fields() {
    let source = "class Libpng < Formula\n  desc \"Library for manipulating PNG images\"\n  homepage \"http://example.org\"\n  url \"http://example.org/pkg-1.0.tar.gz\"\n  sha256 \"abc123\"\n\n  def install\n    if weird syntax here {{{ not even ruby\n    system \"./configure\"\n  end\nend\n";
    let formula = parse_formula("libpng", source).unwrap();
    assert_eq!(formula.name, "libpng");
    assert_eq!(formula.description.as_deref(), Some("Library for manipulating PNG images"));
    assert_eq!(formula.homepage.as_deref(), Some("http://example.org"));
    assert_eq!(formula.url.as_deref(), Some("http://example.org/pkg-1.0.tar.gz"));
    assert_eq!(formula.sha256.as_deref(), Some("abc123"));
    assert!(formula.dependencies.is_empty());
}

#[test]
fn script_without_declarations_gives_bare_record() {
    let source = "class Quiet < Formula\n  def install\n  end\nend\n";
    let formula = parse_formula("quiet", source).unwrap();
    assert_eq!(formula.name, "quiet");
    assert!(formula.description.is_none());
    assert!(formula.homepage.is_none());
    assert!(formula.url.is_none());
    assert!(formula.sha256.is_none());
    assert!(formula.dependencies.is_empty());
}

#[test]
fn later_declaration_overrides_earlier() {
    let source = "desc \"first\"\ndesc \"second\"\n";
    let formula = parse_formula("pkg", source).unwrap();
    assert_eq!(formula.description.as_deref(), Some("second"));
}

#[test]
fn unterminated_literal_is_an_evaluation_error() {
    let source = "desc \"never closed\n";
    assert!(matches!(parse_formula("pkg", source), Err(ParseError::EvaluationError(_))));
}

#[test]
fn trailing_content_after_literal_is_an_evaluation_error() {
    let source = "url \"http://example.org\" , using: :git\n";
    assert!(matches!(parse_formula("pkg", source), Err(ParseError::EvaluationError(_))));
}

#[test]
fn non_literal_argument_records_nothing() {
    let source = "url some_helper_call\ndesc \"still fine\"\n";
    let formula = parse_formula("pkg", source).unwrap();
    assert!(formula.url.is_none());
    assert_eq!(formula.description.as_deref(), Some("still fine"));
}

#[test]
fn invalid_stem_fails_before_reading_declarations() {
    assert!(matches!(parse_formula("---", "desc \"d\"\n"), Err(ParseError::InvalidIdentifier)));
}

#[test]
fn same_identifier_parses_stay_isolated() {
    let first = parse_formula("lib-png", "desc \"one\"\nurl \"http://one.example\"\n").unwrap();
    let second = parse_formula("lib-png", "desc \"two\"\n").unwrap();
    assert_eq!(first.description.as_deref(), Some("one"));
    assert_eq!(first.url.as_deref(), Some("http://one.example"));
    assert_eq!(second.description.as_deref(), Some("two"));
    assert!(second.url.is_none());
}

#[test]
fn evaluate_captures_and_tolerates_blanks() {
    let caps = evaluate("desc \"d\"\n\n  sha256 \"feed\"").unwrap();
    assert_eq!(caps.get_description().as_deref(), Some("d"));
    assert_eq!(caps.get_sha256().as_deref(), Some("feed"));
    assert!(caps.get_homepage().is_none());
    assert!(caps.get_url().is_none());
}

#[test]
fn evaluate_accepts_comments_and_noop_declarations() {
    let caps = evaluate("# a comment\ndepends_on \"gperf\" => :build\nlicense \"MIT\"").unwrap();
    assert!(caps.get_description().is_none());
}

#[test]
fn evaluate_rejects_unknown_statements() {
    assert!(matches!(
        evaluate("system \"rm -rf /\""),
        Err(ParseError::EvaluationError(_))
    ));
}

#[test]
fn capture_record_stores_per_field() {
    let mut caps = CapturedAttributes::new();
    assert!(caps.get_description().is_none());
    caps.set(FieldKind::Description, "d".to_string());
    caps.set(FieldKind::Homepage, "h".to_string());
    caps.set(FieldKind::Homepage, "h2".to_string());
    assert_eq!(caps.get_description().as_deref(), Some("d"));
    assert_eq!(caps.get_homepage().as_deref(), Some("h2"));
    assert!(caps.get_url().is_none());
    assert!(caps.get_sha256().is_none());
}
