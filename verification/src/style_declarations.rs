//! The declarations of a WebVTT style rule, read line by line: each
//! attribute of a style gives its own declaration line, whatever the
//! other attributes are.

use crate::parse_model::{lemma_lines_append, lines_of};
use crate::render_vtt::style_body;
use crate::styles::{allowed_color_char, color_error, Style};
use crate::text::{lemma_prefix_len, lemma_prefix_len_is, not_char, prefix_len, single_line};
use vstd::prelude::*;

verus! {

/// The declaration line of the color `c`.
pub open spec fn color_declaration(c: Seq<char>) -> Seq<char> {
    "  color: "@ + c + ";"@
}

/// A line followed by a line break reads back as that one line.
proof fn lemma_one_line(x: Seq<char>)
    requires
        single_line(x),
        x.len() > 0 && x.last() != '\r',
    ensures
        lines_of(x + seq!['\n']) == seq![x],
{
    let s = x + seq!['\n'];
    assert forall|j: int| 0 <= j < x.len() implies #[trigger] not_char('\n')(s[j]) by {
        assert(s[j] == x[j]);
    }
    lemma_prefix_len_is(s, not_char('\n'), x.len() as int);
    assert(s.take(x.len() as int) =~= x);
    assert(s.skip(x.len() + 1 as int) =~= Seq::<char>::empty());
    assert(lines_of(Seq::<char>::empty()) =~= Seq::<Seq<char>>::empty());
    assert(seq![x] + Seq::<Seq<char>>::empty() =~= seq![x]);
}

/// A valid color holds no line break.
proof fn lemma_color_single_line(c: Seq<char>)
    requires
        color_error(c) is None,
    ensures
        single_line(c),
        c.len() > 0,
{
    lemma_prefix_len(c, allowed_color_char());
    assert forall|i: int| 0 <= i < c.len() implies c[i] != '\n' by {
        assert(allowed_color_char()(c[i]));
    }
}

/// The declarations of a style, line by line: its color, then italics,
/// then bold, each present exactly when the style has it.
pub proof fn lemma_declaration_lines(style: Style)
    requires
        style.color matches Some(c) ==> color_error(c@) is None,
    ensures
        lines_of(style_body(style)) == (match style.color {
            Some(c) => seq![color_declaration(c@)],
            None => Seq::<Seq<char>>::empty(),
        }) + (if style.italic {
            seq!["  font-style: italic;"@]
        } else {
            Seq::<Seq<char>>::empty()
        }) + (if style.bold {
            seq!["  font-weight: bold;"@]
        } else {
            Seq::<Seq<char>>::empty()
        }),
{
    reveal_strlit("  color: ");
    reveal_strlit(";\n");
    reveal_strlit(";");
    reveal_strlit("  font-style: italic;\n");
    reveal_strlit("  font-style: italic;");
    reveal_strlit("  font-weight: bold;\n");
    reveal_strlit("  font-weight: bold;");
    let color_part = match style.color {
        Some(c) => "  color: "@ + c@ + ";\n"@,
        None => Seq::empty(),
    };
    let italic_part = if style.italic {
        "  font-style: italic;\n"@
    } else {
        Seq::empty()
    };
    let bold_part = if style.bold {
        "  font-weight: bold;\n"@
    } else {
        Seq::empty()
    };
    assert(style_body(style) == color_part + italic_part + bold_part);
    assert(lines_of(Seq::<char>::empty()) =~= Seq::<Seq<char>>::empty());
    if let Some(c) = style.color {
        lemma_color_single_line(c@);
        let line = color_declaration(c@);
        assert forall|i: int| 0 <= i < line.len() implies line[i] != '\n' by {
            if 9 <= i < 9 + c@.len() {
                assert(line[i] == c@[i - 9]);
            }
        }
        assert(color_part =~= line + seq!['\n']);
        lemma_one_line(line);
    }
    if style.italic {
        assert("  font-style: italic;\n"@ =~= "  font-style: italic;"@ + seq!['\n']);
        lemma_one_line("  font-style: italic;"@);
    }
    if style.bold {
        assert("  font-weight: bold;\n"@ =~= "  font-weight: bold;"@ + seq!['\n']);
        lemma_one_line("  font-weight: bold;"@);
    }
    lemma_lines_append(color_part, italic_part);
    lemma_lines_append(color_part + italic_part, bold_part);
}

/// Each attribute of a style gives its own declaration, whatever the
/// others are: read line by line, the declarations of a style (with a
/// valid color) hold `  font-weight: bold;` exactly when the style is
/// bold, `  font-style: italic;` exactly when it is italic, and
/// `  color: C;` exactly when its color is `C`; and nothing else.
pub proof fn lemma_style_declarations(style: Style)
    requires
        style.color matches Some(c) ==> color_error(c@) is None,
    ensures
        ({
            let lines = lines_of(style_body(style));
            &&& lines.contains("  font-weight: bold;"@) <==> style.bold
            &&& lines.contains("  font-style: italic;"@) <==> style.italic
            &&& forall|c: Seq<char>|
                #[trigger] lines.contains(color_declaration(c)) <==> (style.color matches Some(k)
                    && k@ == c)
            &&& lines.len() == (if style.color is Some {
                1int
            } else {
                0
            }) + (if style.italic {
                1int
            } else {
                0
            }) + (if style.bold {
                1int
            } else {
                0
            })
        }),
{
    lemma_declaration_lines(style);
    reveal_strlit("  color: ");
    reveal_strlit(";");
    reveal_strlit("  font-style: italic;");
    reveal_strlit("  font-weight: bold;");
    let bold = "  font-weight: bold;"@;
    let italic = "  font-style: italic;"@;
    let lines = lines_of(style_body(style));
    assert(bold.len() != italic.len());
    assert forall|c: Seq<char>| color_declaration(c)[2] == 'c' && color_declaration(c).len() == c.len() + 10 by {}
    assert(bold[2] == 'f' && italic[2] == 'f');
    assert forall|c: Seq<char>, d: Seq<char>|
        #[trigger] color_declaration(c) == #[trigger] color_declaration(d) implies c == d by {
        let line = color_declaration(c);
        assert(line.subrange(9, line.len() - 1) =~= c);
        assert(color_declaration(d).subrange(9, color_declaration(d).len() - 1) =~= d);
    }
    if style.bold {
        assert(lines[lines.len() - 1] == bold);
    }
    if style.italic {
        assert(lines[if style.color is Some {
            1int
        } else {
            0
        }] == italic);
    }
    if let Some(k) = style.color {
        assert(lines[0] == color_declaration(k@));
    }
    assert forall|c: Seq<char>| #[trigger] lines.contains(color_declaration(c)) implies (
    style.color matches Some(k) && k@ == c) by {
        let i = choose|i: int| 0 <= i < lines.len() && lines[i] == color_declaration(c);
        assert(lines[i] != bold);
        assert(lines[i] != italic);
    }
}

} // verus!
