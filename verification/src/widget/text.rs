use vstd::prelude::*;

use crate::strs::{push_char, str_eq};
use crate::widget::{
    opt_string_view, setting, setting_or, spec_vertical_padding, text_setting, text_setting_or,
    vertical_padding,
};

verus! {

/// Horizontal alignment of text.
#[derive(Debug, Clone, Copy, PartialEq, Eq, Structural)]
pub enum TextAlign {
    Left,
    Center,
    Right,
}

/// A block of fixed text with an optional title.
pub struct TextWidget {
    pub content: String,
    pub title: Option<String>,
    pub align: TextAlign,
}

/// The alignment named `left` or `right`; centred for any other name or none.
pub open spec fn align_named(name: Seq<char>) -> TextAlign {
    if name == "left"@ {
        TextAlign::Left
    } else if name == "right"@ {
        TextAlign::Right
    } else {
        TextAlign::Center
    }
}

impl TextWidget {
    /// The text widget that a zone's settings describe: `content` (empty by
    /// default), an optional `title`, and `align`.
    pub fn new(config: Option<&toml::Value>) -> (r: Self)
        ensures
            r.content@ == setting_or(config, "content"@, ""@),
            opt_string_view(r.title) == setting(config, "title"@),
            r.align == align_named(setting_or(config, "align"@, "center"@)),
    {
        let content = text_setting_or(config, "content", "");
        let title = text_setting(config, "title");
        let align_name = text_setting_or(config, "align", "center");
        let align = if str_eq(align_name.as_str(), "left") {
            TextAlign::Left
        } else if str_eq(align_name.as_str(), "right") {
            TextAlign::Right
        } else {
            TextAlign::Center
        };
        TextWidget { content, title, align }
    }

    /// The title of the border: the title padded with a space on each side,
    /// or ` Text `.
    pub fn block_title(&self) -> (r: String)
        ensures
            r@ == match self.title {
                Some(t) => " "@ + t@ + " "@,
                None => " Text "@,
            },
    {
        match &self.title {
            Some(t) => {
                let mut s = String::from_str(" ");
                s.append(t.as_str());
                s.append(" ");
                s
            },
            None => String::from_str(" Text "),
        }
    }
}

/// `s` cut at every `\n`: one piece more than there are line feeds.
pub open spec fn split_at_newlines(s: Seq<char>) -> Seq<Seq<char>>
    decreases s.len(),
{
    if s.len() == 0 {
        seq![Seq::empty()]
    } else {
        let rest = split_at_newlines(s.drop_last());
        if s.last() == '\n' {
            rest.push(Seq::empty())
        } else {
            rest.update(rest.len() - 1, rest.last().push(s.last()))
        }
    }
}

/// A line without the `\r` of a `\r\n` ending.
pub open spec fn strip_cr(line: Seq<char>) -> Seq<char> {
    if line.len() > 0 && line.last() == '\r' {
        line.drop_last()
    } else {
        line
    }
}

/// The lines of `s` as `str::lines` gives them: cut at `\n`, each `\r\n`
/// ending counting as one, and no empty line after a final line ending.
pub open spec fn text_lines(s: Seq<char>) -> Seq<Seq<char>> {
    let pieces = split_at_newlines(s);
    let ended = pieces.drop_last().map_values(|p: Seq<char>| strip_cr(p));
    if pieces.last().len() == 0 {
        ended
    } else {
        ended.push(pieces.last())
    }
}

proof fn lemma_split_nonempty(s: Seq<char>)
    ensures
        split_at_newlines(s).len() >= 1,
    decreases s.len(),
{
    if s.len() > 0 {
        lemma_split_nonempty(s.drop_last());
    }
}

/// The lines of `s`, as `str::lines` gives them.
pub fn content_lines(s: &str) -> (r: Vec<String>)
    ensures
        r@.len() == text_lines(s@).len(),
        forall|i: int| 0 <= i < r@.len() ==> (#[trigger] r@[i])@ == text_lines(s@)[i],
{
    let n = s.unicode_len();
    let mut done: Vec<String> = Vec::new();
    let mut cur = String::new();
    let mut pending_cr = false;
    for i in 0..n
        invariant
            n == s@.len(),
            split_at_newlines(s@.take(i as int)).len() >= 1,
            done@.len() == split_at_newlines(s@.take(i as int)).len() - 1,
            forall|j: int|
                0 <= j < done@.len() ==> (#[trigger] done@[j])@ == strip_cr(split_at_newlines(s@.take(i as int))[j]),
            split_at_newlines(s@.take(i as int)).last() == cur@ + (if pending_cr {
                seq!['\r']
            } else {
                Seq::empty()
            }),
            !pending_cr ==> !(cur@.len() > 0 && cur@.last() == '\r'),
    {
        let c = s.get_char(i);
        let ghost before = split_at_newlines(s@.take(i as int));
        proof {
            assert(s@.take(i + 1).drop_last() =~= s@.take(i as int));
            assert(s@.take(i + 1).last() == c);
            lemma_split_nonempty(s@.take(i as int));
        }
        if c == '\n' {
            if pending_cr {
                assert((cur@ + seq!['\r']).drop_last() =~= cur@);
            } else {
                assert(cur@ + Seq::<char>::empty() =~= cur@);
            }
            assert(strip_cr(before.last()) == cur@);
            done.push(cur);
            cur = String::new();
            pending_cr = false;
            assert(split_at_newlines(s@.take(i + 1)) == before.push(Seq::empty()));
            assert(cur@ + Seq::<char>::empty() =~= Seq::<char>::empty());
        } else {
            if pending_cr {
                push_char(&mut cur, '\r');
            }
            if c == '\r' {
                pending_cr = true;
            } else {
                push_char(&mut cur, c);
                pending_cr = false;
            }
            assert(split_at_newlines(s@.take(i + 1)) == before.update(before.len() - 1, before.last().push(c)));
            assert(split_at_newlines(s@.take(i + 1)).last() =~= cur@ + (if pending_cr {
                seq!['\r']
            } else {
                Seq::empty()
            }));
        }
    }
    proof {
        assert(s@.take(n as int) =~= s@);
    }
    if pending_cr {
        push_char(&mut cur, '\r');
    }
    if cur.as_str().unicode_len() > 0 {
        done.push(cur);
    }
    done
}

impl TextWidget {
    /// The lines to draw inside an area `area_height` rows tall: blank lines
    /// that centre the content, then the content's lines.
    pub fn layout(&self, area_height: u16) -> (r: (u16, Vec<String>))
        ensures
            r.0 as int == spec_vertical_padding(area_height, (text_lines(self.content@).len() % 0x10000) as u16),
            r.1@.len() == text_lines(self.content@).len(),
            forall|i: int| 0 <= i < r.1@.len() ==> (#[trigger] r.1@[i])@ == text_lines(self.content@)[i],
    {
        let lines = content_lines(self.content.as_str());
        let count = lines.len();
        let height: u16 = (count % 0x10000) as u16;
        (vertical_padding(area_height, height), lines)
    }
}

/// A final line ending adds no line: text that does not already end in a
/// line ending (or a carriage return) has the same lines with `\n` or
/// `\r\n` appended.
pub proof fn law_final_line_ending(s: Seq<char>)
    requires
        s.len() > 0,
        s.last() != '\n',
        s.last() != '\r',
    ensures
        text_lines(s.push('\n')) == text_lines(s),
        text_lines(s.push('\r').push('\n')) == text_lines(s),
{
    let p = split_at_newlines(s);
    lemma_split_nonempty(s);
    lemma_split_nonempty(s.drop_last());
    assert(s.push('\n').drop_last() =~= s);
    assert(split_at_newlines(s.push('\n')) == p.push(Seq::empty()));
    assert(p.push(Seq::empty()).drop_last() =~= p);
    assert(p.last().len() > 0 && p.last().last() == s.last());
    assert(p.map_values(|q: Seq<char>| strip_cr(q)) =~= p.drop_last().map_values(|q: Seq<char>| strip_cr(q)).push(
        p.last(),
    ));
    let s2 = s.push('\r');
    assert(s2.push('\n').drop_last() =~= s2);
    assert(s2.drop_last() =~= s);
    let p2 = split_at_newlines(s2);
    assert(p2 == p.update(p.len() - 1, p.last().push('\r')));
    assert(split_at_newlines(s2.push('\n')) == p2.push(Seq::empty()));
    assert(p2.push(Seq::empty()).drop_last() =~= p2);
    assert(p2.last().push('\r').drop_last() =~= p2.last()) by {
        assert(p.last().push('\r').drop_last() =~= p.last());
    }
    assert(p2.map_values(|q: Seq<char>| strip_cr(q)) =~= p.drop_last().map_values(|q: Seq<char>| strip_cr(q)).push(
        p.last(),
    ));
}

} // verus!
