use vstd::prelude::*;

use crate::highlight::HighlightSection;
use vstd::string::StrSliceExecFns;
use vstd::string::StringExecFns;

verus! {

/// The characters of the opening highlight marker, `<b>`.
pub open spec fn marker_open() -> Seq<char> {
    seq!['<', 'b', '>']
}

/// The characters of the closing highlight marker, `</b>`.
pub open spec fn marker_close() -> Seq<char> {
    seq!['<', '/', 'b', '>']
}

/// Minimal HTML entity encoding of one character: the five characters
/// with meaning in HTML markup become entities, every other character
/// stays as it is.
pub open spec fn esc_char(c: char) -> Seq<char> {
    if c == '&' {
        seq!['&', 'a', 'm', 'p', ';']
    } else if c == '<' {
        seq!['&', 'l', 't', ';']
    } else if c == '>' {
        seq!['&', 'g', 't', ';']
    } else if c == '"' {
        seq!['&', 'q', 'u', 'o', 't', ';']
    } else if c == '\'' {
        seq!['&', '#', 'x', '2', '7', ';']
    } else {
        seq![c]
    }
}

/// Minimal HTML entity encoding of a text, character by character.
pub open spec fn escaped(s: Seq<char>) -> Seq<char>
    decreases s.len(),
{
    if s.len() == 0 {
        Seq::empty()
    } else {
        esc_char(s[0]) + escaped(s.subrange(1, s.len() as int))
    }
}

/// Relies on `htmlescape::encode_minimal`: every character is replaced
/// by its minimal HTML entity (`&` `<` `>` `"` `'`) or kept verbatim.
#[verifier::external_body]
fn encode_minimal(s: &str) -> (r: String)
    ensures
        r@ == escaped(s@),
{
    htmlescape::encode_minimal(s)
}

/// Highlight sections fit a text of `len` characters: each spans a
/// forward range ending within the text, and they come in
/// non-decreasing, non-overlapping order.
pub open spec fn sections_wf(hls: Seq<HighlightSection>, len: nat) -> bool {
    &&& forall|k: int|
        0 <= k < hls.len() ==> (#[trigger] hls[k]).start <= hls[k].stop && hls[k].stop <= len
    &&& forall|k: int|
        0 <= k < hls.len() - 1 ==> (#[trigger] hls[k]).stop <= hls[k + 1].start
}

/// Where the rendering cursor stands once the first `n` highlights have
/// been written out.
pub open spec fn cursor_at(hls: Seq<HighlightSection>, n: int) -> int {
    if n <= 0 {
        0
    } else {
        hls[n - 1].stop as int
    }
}

/// The marked-up rendering of the first `n` highlights: for each, the
/// plain text since the cursor, then the opening marker, the
/// highlighted text and the closing marker.
pub open spec fn marked_prefix(text: Seq<char>, hls: Seq<HighlightSection>, n: int) -> Seq<char>
    decreases n,
{
    if n <= 0 {
        Seq::empty()
    } else {
        marked_prefix(text, hls, n - 1) + text.subrange(
            cursor_at(hls, n - 1),
            hls[n - 1].start as int,
        ) + marker_open() + text.subrange(hls[n - 1].start as int, hls[n - 1].stop as int)
            + marker_close()
    }
}

/// The full marked-up rendering: all highlights, then the plain tail.
pub open spec fn marked(text: Seq<char>, hls: Seq<HighlightSection>) -> Seq<char> {
    marked_prefix(text, hls, hls.len() as int) + text.subrange(
        cursor_at(hls, hls.len() as int),
        text.len() as int,
    )
}

/// As `marked_prefix`, with every text segment entity-encoded; the
/// markers themselves stay verbatim.
pub open spec fn html_prefix(text: Seq<char>, hls: Seq<HighlightSection>, n: int) -> Seq<char>
    decreases n,
{
    if n <= 0 {
        Seq::empty()
    } else {
        html_prefix(text, hls, n - 1) + escaped(
            text.subrange(cursor_at(hls, n - 1), hls[n - 1].start as int),
        ) + marker_open() + escaped(text.subrange(hls[n - 1].start as int, hls[n - 1].stop as int))
            + marker_close()
    }
}

/// The full escaped rendering: all highlights, then the escaped plain
/// tail.
pub open spec fn html_marked(text: Seq<char>, hls: Seq<HighlightSection>) -> Seq<char> {
    html_prefix(text, hls, hls.len() as int) + escaped(
        text.subrange(cursor_at(hls, hls.len() as int), text.len() as int),
    )
}

/// The rendered segments with the markers and the escaping stripped:
/// the plain and highlighted pieces of the first `n` highlights, in
/// order.
pub open spec fn segments_prefix(text: Seq<char>, hls: Seq<HighlightSection>, n: int) -> Seq<char>
    decreases n,
{
    if n <= 0 {
        Seq::empty()
    } else {
        segments_prefix(text, hls, n - 1) + text.subrange(
            cursor_at(hls, n - 1),
            hls[n - 1].start as int,
        ) + text.subrange(hls[n - 1].start as int, hls[n - 1].stop as int)
    }
}

/// All rendered segments, markers and escaping stripped: the pieces of
/// every highlight, then the plain tail.
pub open spec fn segments_concat(text: Seq<char>, hls: Seq<HighlightSection>) -> Seq<char> {
    segments_prefix(text, hls, hls.len() as int) + text.subrange(
        cursor_at(hls, hls.len() as int),
        text.len() as int,
    )
}

proof fn lemma_segments_prefix(text: Seq<char>, hls: Seq<HighlightSection>, n: int)
    requires
        sections_wf(hls, text.len()),
        0 <= n <= hls.len(),
    ensures
        segments_prefix(text, hls, n) == text.subrange(0, cursor_at(hls, n)),
    decreases n,
{
    if n == 0 {
        assert(segments_prefix(text, hls, 0) =~= text.subrange(0, 0));
    } else {
        lemma_segments_prefix(text, hls, n - 1);
        assert(segments_prefix(text, hls, n) =~= text.subrange(0, cursor_at(hls, n)));
    }
}

/// Round trip of the renderer: concatenating, in order, every
/// un-highlighted segment and every highlighted segment (markers and
/// escaping stripped) reproduces the rendered text exactly.
pub proof fn lemma_segments_roundtrip(text: Seq<char>, hls: Seq<HighlightSection>)
    requires
        sections_wf(hls, text.len()),
    ensures
        segments_concat(text, hls) == text,
{
    lemma_segments_prefix(text, hls, hls.len() as int);
    assert(segments_concat(text, hls) =~= text);
}

proof fn lemma_esc_char_no_markup(c: char)
    ensures
        forall|i: int|
            0 <= i < esc_char(c).len() ==> esc_char(c)[i] != '<' && esc_char(c)[i] != '>'
                && esc_char(c)[i] != '"' && esc_char(c)[i] != '\'',
{
}

/// Escaped text never holds a raw `<`, `>`, `"` or `'`: each of those
/// became an entity. (A raw `&` does appear, inside the entities
/// themselves.)
pub proof fn lemma_escaped_no_markup(s: Seq<char>)
    ensures
        forall|i: int|
            0 <= i < escaped(s).len() ==> escaped(s)[i] != '<' && escaped(s)[i] != '>' && escaped(
                s,
            )[i] != '"' && escaped(s)[i] != '\'',
    decreases s.len(),
{
    if s.len() > 0 {
        lemma_esc_char_no_markup(s[0]);
        let rest = s.subrange(1, s.len() as int);
        lemma_escaped_no_markup(rest);
        let e = esc_char(s[0]);
        assert forall|i: int|
            0 <= i < escaped(s).len() implies escaped(s)[i] != '<' && escaped(s)[i] != '>'
            && escaped(s)[i] != '"' && escaped(s)[i] != '\'' by {
            if i < e.len() {
                assert(escaped(s)[i] == e[i]);
            } else {
                assert(escaped(s)[i] == escaped(rest)[i - e.len()]);
            }
        }
    }
}

/// Text without any of the five encoded characters passes through the
/// escaping unchanged.
pub proof fn lemma_escaped_plain(s: Seq<char>)
    requires
        forall|i: int|
            0 <= i < s.len() ==> s[i] != '&' && s[i] != '<' && s[i] != '>' && (#[trigger] s[i])
                != '"' && s[i] != '\'',
    ensures
        escaped(s) == s,
    decreases s.len(),
{
    if s.len() == 0 {
        assert(escaped(s) =~= s);
    } else {
        lemma_escaped_plain(s.subrange(1, s.len() as int));
        assert(escaped(s) =~= s);
    }
}

/// The final output: a fragment of a document (an owned copy of the
/// selected excerpt) and the highlighted spans inside it, expressed
/// relative to that owned text.
#[derive(Debug)]
pub struct Snippet {
    fragments: String,
    highlighted: Vec<HighlightSection>,
}

impl Snippet {
    /// The snippet's text, as characters.
    pub closed spec fn text_view(&self) -> Seq<char> {
        self.fragments@
    }

    /// The snippet's highlight sections, in text order.
    pub closed spec fn hl_view(&self) -> Seq<HighlightSection> {
        self.highlighted@
    }

    /// The highlights fit the snippet's own text, in order and without
    /// overlap.
    pub open spec fn wf(&self) -> bool {
        sections_wf(self.hl_view(), self.text_view().len())
    }

    /// Create a new, empty, `Snippet`.
    pub fn empty() -> (r: Snippet)
        ensures
            r.text_view() == Seq::<char>::empty(),
            r.hl_view() == Seq::<HighlightSection>::empty(),
            r.wf(),
    {
        Snippet { fragments: String::new(), highlighted: Vec::new() }
    }

    /// A snippet made of an already selected excerpt and the highlight
    /// sections local to it.
    pub(crate) fn from_parts(fragments: String, highlighted: Vec<HighlightSection>) -> (r: Snippet)
        ensures
            r.text_view() == fragments@,
            r.hl_view() == highlighted@,
    {
        Snippet { fragments, highlighted }
    }

    /// Returns the fragment text of the `Snippet`.
    pub fn fragments(&self) -> (r: &str)
        ensures
            r@ == self.text_view(),
    {
        self.fragments.as_str()
    }

    /// Returns the list of highlighted positions of the `Snippet`.
    pub fn highlighted(&self) -> (r: &[HighlightSection])
        ensures
            r@ == self.hl_view(),
    {
        self.highlighted.as_slice()
    }

    /// Renders the snippet with `<b>`/`</b>` around each highlighted
    /// span and no escaping: every character of the snippet's text
    /// reappears verbatim.
    pub fn to_mark(&self) -> (r: String)
        requires
            self.wf(),
        ensures
            r@ == marked(self.text_view(), self.hl_view()),
    {
        let text = self.fragments.as_str();
        let mut html = String::new();
        let mut start_from: usize = 0;
        let mut idx: usize = 0;
        proof {
            assert(html@ =~= marked_prefix(text@, self.hl_view(), 0));
        }
        while idx < self.highlighted.len()
            invariant
                sections_wf(self.hl_view(), text@.len()),
                text@ == self.text_view(),
                self.hl_view() == self.highlighted@,
                idx <= self.highlighted@.len(),
                start_from as int == cursor_at(self.hl_view(), idx as int),
                html@ == marked_prefix(text@, self.hl_view(), idx as int),
            decreases self.highlighted@.len() - idx,
        {
            let item = self.highlighted[idx];
            proof {
                assert(self.hl_view()[idx as int] == item);
                if idx > 0 {
                    assert(self.hl_view()[idx as int - 1].stop <= item.start);
                }
            }
            html.append(text.substring_char(start_from, item.start));
            html.append("<b>");
            html.append(text.substring_char(item.start, item.stop));
            html.append("</b>");
            proof {
                reveal_strlit("<b>");
                reveal_strlit("</b>");
                assert("<b>"@ =~= marker_open());
                assert("</b>"@ =~= marker_close());
                assert(html@ =~= marked_prefix(text@, self.hl_view(), idx as int + 1));
            }
            start_from = item.stop;
            idx = idx + 1;
        }
        html.append(text.substring_char(start_from, text.unicode_len()));
        proof {
            assert(html@ =~= marked(self.text_view(), self.hl_view()));
        }
        html
    }

    /// Renders the snippet as HTML: `<b>`/`</b>` around each
    /// highlighted span, minimal entity escaping applied to every text
    /// segment, the markers verbatim.
    pub fn to_html(&self) -> (r: String)
        requires
            self.wf(),
        ensures
            r@ == html_marked(self.text_view(), self.hl_view()),
    {
        let text = self.fragments.as_str();
        let mut html = String::new();
        let mut start_from: usize = 0;
        let mut idx: usize = 0;
        proof {
            assert(html@ =~= html_prefix(text@, self.hl_view(), 0));
        }
        while idx < self.highlighted.len()
            invariant
                sections_wf(self.hl_view(), text@.len()),
                text@ == self.text_view(),
                self.hl_view() == self.highlighted@,
                idx <= self.highlighted@.len(),
                start_from as int == cursor_at(self.hl_view(), idx as int),
                html@ == html_prefix(text@, self.hl_view(), idx as int),
            decreases self.highlighted@.len() - idx,
        {
            let item = self.highlighted[idx];
            proof {
                assert(self.hl_view()[idx as int] == item);
                if idx > 0 {
                    assert(self.hl_view()[idx as int - 1].stop <= item.start);
                }
            }
            let plain = encode_minimal(text.substring_char(start_from, item.start));
            html.append(plain.as_str());
            html.append("<b>");
            let hit = encode_minimal(text.substring_char(item.start, item.stop));
            html.append(hit.as_str());
            html.append("</b>");
            proof {
                reveal_strlit("<b>");
                reveal_strlit("</b>");
                assert("<b>"@ =~= marker_open());
                assert("</b>"@ =~= marker_close());
                assert(html@ =~= html_prefix(text@, self.hl_view(), idx as int + 1));
            }
            start_from = item.stop;
            idx = idx + 1;
        }
        let tail = encode_minimal(text.substring_char(start_from, text.unicode_len()));
        html.append(tail.as_str());
        proof {
            assert(html@ =~= html_marked(self.text_view(), self.hl_view()));
        }
        html
    }
}

} // verus!
