use editor_core::buffer::Buffer;
use editor_core::cell::DEFAULT_COLOR;
use editor_core::highlight::Highlighter;
use syntect::highlighting::ThemeSet;
use syntect::parsing::SyntaxSet;

/// Lines with what syntaxes take for strings, comments, tags and marks that
/// open and close one another.
const LINES: [&str; 24] = [
    "",
    "    ",
    "b",
    "+c",
    "fn main() { let s = r#\"raw\"#; let t = r##\"more\"##; }",
    "cat <<EOF and <<-'END' and <<~EOS",
    "EOF",
    "<div class=\"a\" id='b'>text</div><!-- note --><br/>",
    "/* comment */ // more # hash -- dash ; semi % percent",
    "`code` ``more`` *emph* **strong** [link](url) ~~~ ```",
    "\\begin{document} \\verb|x| $x^2$ \\end{document}",
    "${var} $(cmd) %{x} #{y} {{z}} <%= w %> <?php echo 1; ?>",
    "'single' \"double\" \"\"\"triple\"\"\" q(paren) q{brace} %w[a b]",
    "# heading",
    "--[[ lua ]] --[==[ long ]==] [[text]] [=[x]=]",
    "s/a/b/g; tr/a-z/A-Z/; m{x}; qq<y>; y!a!b!",
    "R\"delim(raw)delim\" u8R\"(x)\" @\"verbatim\" $\"inter{x}\"",
    "begin end do done if fi case esac { } ( ) [ ]",
    "key: value | >- &anchor *alias !!tag",
    "@decorator def f(x: int = 0) -> str: return f\"{x!r:>10}\"",
    "SELECT * FROM t WHERE a = $tag$text$tag$ AND b = $$x$$;",
    "<script>var a = `t${b}`;</script><style>a{b:c}</style>",
    "#include <stdio.h> #define X(a) a##a",
    "=begin =end __END__ =pod =cut",
];

/// Colours each of the lines under every packaged syntax whose place in the set
/// is `part` modulo 8, and gives the number of syntaxes.
fn colour_part(part: usize) -> usize {
    let names: Vec<String> = SyntaxSet::load_defaults_nonewlines()
        .syntaxes()
        .iter()
        .enumerate()
        .filter(|(place, _)| place % 8 == part)
        .map(|(_, syntax)| syntax.name.clone())
        .collect();
    for name in &names {
        let highlighter = Highlighter::packaged(name.clone());
        assert_eq!(highlighter.syntax_name(), name);
        let mut buffer =
            Buffer::new(String::from("sample"), Some(highlighter), Some(ThemeSet::load_defaults()));
        for line in LINES {
            buffer.append_line(line);
        }
        for y in 0..LINES.len() {
            buffer.highlight_line(y as i32);
            let text: String = buffer.lines[y].iter().map(|cell| cell.ch).collect();
            assert_eq!(text, LINES[y], "{}", name);
            assert!(
                buffer.lines[y].iter().all(|cell| cell.fg >= 16 || cell.fg == DEFAULT_COLOR),
                "{}: {}",
                name,
                LINES[y]
            );
        }
        assert!(buffer.lines.iter().flatten().any(|cell| cell.fg >= 16), "{}", name);
    }
    names.len()
}

#[test]
fn every_packaged_syntax_colours_the_sample_lines_part_0() {
    assert!(colour_part(0) > 0);
}

#[test]
fn every_packaged_syntax_colours_the_sample_lines_part_1() {
    assert!(colour_part(1) > 0);
}

#[test]
fn every_packaged_syntax_colours_the_sample_lines_part_2() {
    assert!(colour_part(2) > 0);
}

#[test]
fn every_packaged_syntax_colours_the_sample_lines_part_3() {
    assert!(colour_part(3) > 0);
}

#[test]
fn every_packaged_syntax_colours_the_sample_lines_part_4() {
    assert!(colour_part(4) > 0);
}

#[test]
fn every_packaged_syntax_colours_the_sample_lines_part_5() {
    assert!(colour_part(5) > 0);
}

#[test]
fn every_packaged_syntax_colours_the_sample_lines_part_6() {
    assert!(colour_part(6) > 0);
}

#[test]
fn every_packaged_syntax_colours_the_sample_lines_part_7() {
    assert!(colour_part(7) > 0);
}
