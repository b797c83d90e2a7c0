//! The number of terminal cells that text occupies.

use vstd::prelude::*;
use vstd::utf8::*;

use unicode_segmentation::UnicodeSegmentation;

verus! {

/// The grapheme clusters of `s`, in order, as `UnicodeSegmentation::graphemes` finds them
/// (extended clusters when `is_extended` holds).
pub uninterp spec fn unicode_graphemes(s: Seq<char>, is_extended: bool) -> Seq<Seq<char>>;

/// The width that `UnicodeWidthStr::width` gives to `s`.
pub uninterp spec fn unicode_str_width(s: Seq<char>) -> usize;

/// The clusters of ASCII text: each character on its own, except that CR LF stays one
/// cluster.
pub open spec fn ascii_clusters(s: Seq<char>) -> Seq<Seq<char>>
    decreases s.len(),
{
    if s.len() == 0 {
        seq![]
    } else if s.len() >= 2 && s[0] == '\r' && s[1] == '\n' {
        seq![s.take(2)] + ascii_clusters(s.skip(2))
    } else {
        seq![s.take(1)] + ascii_clusters(s.skip(1))
    }
}

/// The grapheme clusters of `s`: for ASCII text those of `ascii_clusters`, otherwise those
/// that `unicode_graphemes` names.
pub open spec fn grapheme_clusters(s: Seq<char>, is_extended: bool) -> Seq<Seq<char>> {
    if is_ascii_chars(s) {
        ascii_clusters(s)
    } else {
        unicode_graphemes(s, is_extended)
    }
}

/// `UnicodeSegmentation::graphemes`, collected. For ASCII text the crate gives every
/// character the category `Any`, `CR`, `LF` or `Control` (`GraphemeCursor::grapheme_category`
/// and its table, where U+007F is `Control`), and between two such categories its pair rules
/// (`check_pair`) keep only CR LF together; so ASCII text splits as `ascii_clusters` says.
/// Of other text the result is the sequence of clusters that `unicode_graphemes` names, and
/// no more is claimed of it.
#[verifier::external_body]
fn graphemes_of(s: &str, is_extended: bool) -> (r: Vec<&str>)
    ensures
        is_ascii_chars(s@) ==> r.deep_view() == ascii_clusters(s@),
        !is_ascii_chars(s@) ==> r.deep_view() == unicode_graphemes(s@, is_extended),
{
    s.graphemes(is_extended).collect()
}

/// The width of `s` by `unicode_width`: 0 for the empty string, otherwise what
/// `unicode_str_width` names.
pub open spec fn str_width(s: Seq<char>) -> usize {
    if s.len() == 0 {
        0
    } else {
        unicode_str_width(s)
    }
}

/// `UnicodeWidthStr::width` of `unicode_width`: a fold over the characters that starts at 0
/// (`lookup::str_width`), so the empty string has width 0; of other text the result is the
/// width that `unicode_str_width` names, and no more is claimed of it.
#[verifier::external_body]
fn str_width_of(s: &str) -> (r: usize)
    ensures
        s@.len() == 0 ==> r == 0,
        s@.len() > 0 ==> r == unicode_str_width(s@),
{
    unicode_width::UnicodeWidthStr::width(s)
}

/// ASCII control characters: `'\0'..='\x1f'` and DEL.
pub open spec fn is_ascii_control(c: char) -> bool {
    c <= '\u{1f}' || c == '\u{7f}'
}

/// Characters of the Unicode general category `Cc` (Control): `'\0'..='\x1f'` and
/// `'\x7f'..='\u{9f}'`.
pub open spec fn is_control(c: char) -> bool {
    c <= '\u{1f}' || ('\u{7f}' <= c && c <= '\u{9f}')
}

/// The control characters are those of the Unicode category `Cc`: the C0 controls
/// U+0000..=U+001F, DEL, and the C1 controls U+0080..=U+009F. Among ASCII characters they
/// are the ASCII control characters, and no character from U+00A0 on is one.
pub proof fn lemma_control_characters(c: char)
    ensures
        is_control(c) <==> (c as u32) < 0x20 || (c as u32) == 0x7f || (0x80 <= (c as u32)
            && (c as u32) < 0xa0),
        (c as u32) < 0x80 ==> (is_control(c) <==> is_ascii_control(c)),
        (c as u32) >= 0xa0 ==> !is_control(c),
{
}

/// A cluster that starts with a character from U+00A0 on, such as `°` or a no-break space,
/// is not counted as a control: it takes the width that `unicode_width` gives it. A single
/// printable ASCII character takes one cell.
pub proof fn lemma_width_of_non_control_clusters(g: Seq<char>)
    ensures
        g.len() > 0 && (g[0] as u32) >= 0xa0 ==> grapheme_display_width(g) == str_width(g) as int,
        g.len() == 1 && 0x20 <= (g[0] as u32) && (g[0] as u32) < 0x7f ==> grapheme_display_width(
            g,
        ) == 1,
{
    if g.len() > 0 {
        lemma_char_as_u32(g[0]);
        lemma_control_characters(g[0]);
    }
}

fn char_is_control(c: char) -> (r: bool)
    ensures
        r == is_control(c),
{
    c <= '\u{1f}' || ('\u{7f}' <= c && c <= '\u{9f}')
}

fn byte_is_ascii_control(b: u8) -> (r: bool)
    ensures
        r == (b <= 0x1f || b == 0x7f),
{
    b <= 0x1f || b == 0x7f
}

/// The width of one grapheme cluster: a single ASCII character takes one cell unless it is a
/// control character; a cluster that starts with a control character takes none; any other
/// cluster takes the width that `unicode_width` gives it.
pub open spec fn grapheme_display_width(g: Seq<char>) -> int {
    if g.len() == 1 && g[0] <= '\u{7f}' {
        if is_ascii_control(g[0]) {
            0
        } else {
            1
        }
    } else if g.len() > 0 && is_control(g[0]) {
        0
    } else {
        str_width(g) as int
    }
}

/// The number of characters of `s` that are not ASCII control characters.
pub open spec fn visible_ascii_count(s: Seq<char>) -> int
    decreases s.len(),
{
    if s.len() == 0 {
        0
    } else {
        visible_ascii_count(s.drop_last()) + if is_ascii_control(s.last()) {
            0int
        } else {
            1int
        }
    }
}

/// The sum of the widths of the clusters `gs`.
pub open spec fn graphemes_display_width(gs: Seq<Seq<char>>) -> int
    decreases gs.len(),
{
    if gs.len() == 0 {
        0
    } else {
        graphemes_display_width(gs.drop_last()) + grapheme_display_width(gs.last())
    }
}

/// The width of `s`: for ASCII text the number of characters that are not control
/// characters; otherwise the sum of the widths of its extended grapheme clusters, each
/// rendered in cells of its own.
pub open spec fn display_width(s: Seq<char>) -> int {
    if is_ascii_chars(s) {
        visible_ascii_count(s)
    } else {
        graphemes_display_width(grapheme_clusters(s, true))
    }
}

proof fn lemma_char_as_u32(c: char)
    ensures
        (c as u32) as int == c as int,
{
}

proof fn lemma_visible_count_append(a: Seq<char>, b: Seq<char>)
    ensures
        visible_ascii_count(a + b) == visible_ascii_count(a) + visible_ascii_count(b),
    decreases b.len(),
{
    if b.len() > 0 {
        assert((a + b).drop_last() =~= a + b.drop_last());
        lemma_visible_count_append(a, b.drop_last());
    } else {
        assert(a + b =~= a);
    }
}

/// The width of ASCII text is additive: joining two ASCII texts adds their widths.
pub proof fn lemma_ascii_width_additive(a: Seq<char>, b: Seq<char>)
    requires
        is_ascii_chars(a),
        is_ascii_chars(b),
    ensures
        display_width(a + b) == display_width(a) + display_width(b),
{
    assert(is_ascii_chars(a + b));
    lemma_visible_count_append(a, b);
}

proof fn lemma_graphemes_width_append(g1: Seq<Seq<char>>, g2: Seq<Seq<char>>)
    ensures
        graphemes_display_width(g1 + g2) == graphemes_display_width(g1)
            + graphemes_display_width(g2),
    decreases g2.len(),
{
    if g2.len() > 0 {
        assert((g1 + g2).drop_last() =~= g1 + g2.drop_last());
        lemma_graphemes_width_append(g1, g2.drop_last());
    } else {
        assert(g1 + g2 =~= g1);
    }
}

proof fn lemma_ascii_clusters_width(s: Seq<char>)
    requires
        is_ascii_chars(s),
    ensures
        graphemes_display_width(ascii_clusters(s)) == visible_ascii_count(s),
    decreases s.len(),
{
    if s.len() > 0 {
        let k: int = if s.len() >= 2 && s[0] == '\r' && s[1] == '\n' {
            2
        } else {
            1
        };
        let head = s.take(k);
        let rest = s.skip(k);
        assert(is_ascii_chars(rest));
        lemma_ascii_clusters_width(rest);
        assert(ascii_clusters(s) == seq![head] + ascii_clusters(rest));
        lemma_graphemes_width_append(seq![head], ascii_clusters(rest));
        assert(seq![head].drop_last() =~= Seq::<Seq<char>>::empty());
        assert(s =~= head + rest);
        lemma_visible_count_append(head, rest);
        assert(seq![head].last() == head);
        assert(graphemes_display_width(seq![head].drop_last()) == 0);
        assert(graphemes_display_width(seq![head]) == grapheme_display_width(head));
        if k == 1 {
            assert(head.drop_last() =~= Seq::<char>::empty());
            assert(visible_ascii_count(head.drop_last()) == 0);
            assert(head[0] == s[0]);
            assert(head[0] <= '\u{7f}');
            assert(head.last() == head[0]);
            assert(visible_ascii_count(head) == grapheme_display_width(head));
        } else {
            assert(head[0] == '\r');
            assert(head.last() == '\n');
            assert(head.drop_last() =~= seq!['\r']);
            assert(head.drop_last().last() == '\r');
            assert(head.drop_last().drop_last() =~= Seq::<char>::empty());
            assert(visible_ascii_count(head.drop_last().drop_last()) == 0);
            assert(visible_ascii_count(head.drop_last()) == 0);
            assert(visible_ascii_count(head) == 0);
            assert(grapheme_display_width(head) == 0);
        }
    }
}

/// The width of any text is the sum of the widths of its clusters: for ASCII text the count
/// of its non-control characters agrees with that sum (CR LF, one cluster, counts 0 either
/// way).
pub proof fn lemma_display_width_is_grapheme_sum(s: Seq<char>)
    ensures
        display_width(s) == graphemes_display_width(grapheme_clusters(s, true)),
{
    if is_ascii_chars(s) {
        lemma_ascii_clusters_width(s);
    }
}

/// Joining two texts adds their widths, wherever no cluster spans the join.
pub proof fn lemma_display_width_additive(a: Seq<char>, b: Seq<char>)
    requires
        grapheme_clusters(a + b, true) == grapheme_clusters(a, true) + grapheme_clusters(b, true),
    ensures
        display_width(a + b) == display_width(a) + display_width(b),
{
    lemma_display_width_is_grapheme_sum(a);
    lemma_display_width_is_grapheme_sum(b);
    lemma_display_width_is_grapheme_sum(a + b);
    lemma_graphemes_width_append(grapheme_clusters(a, true), grapheme_clusters(b, true));
}

proof fn lemma_one_byte(s: Seq<char>)
    ensures
        encode_utf8(s).len() == 1 <==> (s.len() == 1 && s[0] <= '\u{7f}'),
{
    if s.len() > 0 {
        let rest = s.drop_first();
        let c = s[0] as u32;
        assert(encode_utf8(s) == encode_scalar(c) + encode_utf8(rest));
        lemma_char_as_u32(s[0]);
        assert(c <= 0x7f <==> s[0] <= '\u{7f}');
        assert(encode_scalar(c).len() == 1 <==> c <= 0x7f);
        assert(encode_scalar(c).len() >= 1);
        if rest.len() > 0 {
            assert(encode_utf8(rest) == encode_scalar(rest[0] as u32) + encode_utf8(
                rest.drop_first(),
            ));
            assert(encode_utf8(rest).len() >= 1);
        } else {
            assert(encode_utf8(rest).len() == 0);
        }
    }
}

proof fn lemma_visible_count_bound(s: Seq<char>)
    ensures
        0 <= visible_ascii_count(s) <= s.len(),
    decreases s.len(),
{
    if s.len() > 0 {
        lemma_visible_count_bound(s.drop_last());
    }
}

proof fn lemma_widths_prefix_monotone(gs: Seq<Seq<char>>, i: int, j: int)
    requires
        0 <= i <= j <= gs.len(),
    ensures
        graphemes_display_width(gs.take(i)) <= graphemes_display_width(gs.take(j)),
        0 <= graphemes_display_width(gs.take(i)),
    decreases j,
{
    if j > 0 && i < j {
        assert(gs.take(j).drop_last() =~= gs.take(j - 1));
        lemma_widths_prefix_monotone(gs, i, j - 1);
    } else if i > 0 {
        assert(gs.take(i).drop_last() =~= gs.take(i - 1));
        lemma_widths_prefix_monotone(gs, i - 1, i - 1);
    }
}

/// The width of one grapheme cluster.
pub fn grapheme_width(grapheme: &str) -> (r: usize)
    ensures
        r == grapheme_display_width(grapheme@),
{
    proof {
        lemma_one_byte(grapheme@);
    }
    let bytes = grapheme.as_bytes();
    if bytes.len() == 1 {
        proof {
            assert forall|i: int| 0 <= i < grapheme@.len() implies '\0' <= #[trigger] grapheme@[i]
                <= '\u{7f}' by {
                lemma_char_as_u32(grapheme@[i]);
            }
            is_ascii_chars_encode_utf8(grapheme@);
        }
        let b = bytes[0];
        return if byte_is_ascii_control(b) {
            0
        } else {
            1
        };
    }
    if !grapheme.is_empty() && char_is_control(grapheme.get_char(0)) {
        return 0;
    }
    str_width_of(grapheme)
}

/// The ASCII path: counts the bytes of `s` that are not ASCII control characters.
fn ascii_width(s: &str) -> (r: usize)
    requires
        is_ascii_chars(s@),
    ensures
        r == visible_ascii_count(s@),
{
    let bytes = s.as_bytes();
    proof {
        is_ascii_chars_encode_utf8(s@);
    }
    let n = bytes.len();
    let mut count: usize = 0;
    let mut i: usize = 0;
    while i < n
        invariant
            n == bytes@.len(),
            bytes@ == encode_utf8(s@),
            n == s@.len(),
            is_ascii_chars(s@),
            forall|k: int| 0 <= k < s@.len() ==> s@[k] as u8 == bytes@[k],
            i <= n,
            count <= i,
            count == visible_ascii_count(s@.take(i as int)),
        decreases n - i,
    {
        assert(s@.take(i + 1).drop_last() =~= s@.take(i as int));
        assert(s@[i as int] <= '\u{7f}');
        if !byte_is_ascii_control(bytes[i]) {
            count = count + 1;
        }
        i = i + 1;
    }
    assert(s@.take(n as int) =~= s@);
    count
}

/// The sum of the widths of `gs`, or `None` where it does not fit in `usize`.
pub fn checked_sum_widths(gs: &Vec<&str>) -> (r: Option<usize>)
    ensures
        graphemes_display_width(gs.deep_view()) >= 0,
        r == (if graphemes_display_width(gs.deep_view()) <= usize::MAX {
            Some(graphemes_display_width(gs.deep_view()) as usize)
        } else {
            None
        }),
{
    let ghost all = gs.deep_view();
    proof {
        lemma_widths_prefix_monotone(all, all.len() as int, all.len() as int);
        assert(all.take(all.len() as int) =~= all);
    }
    let mut sum: usize = 0;
    let mut i: usize = 0;
    while i < gs.len()
        invariant
            all == gs.deep_view(),
            i <= gs.len(),
            sum == graphemes_display_width(all.take(i as int)),
        decreases gs.len() - i,
    {
        let w = grapheme_width(gs[i]);
        proof {
            assert(all.take(i + 1).drop_last() =~= all.take(i as int));
            assert(all[i as int] == gs@[i as int]@);
            lemma_widths_prefix_monotone(all, i + 1, all.len() as int);
        }
        match sum.checked_add(w) {
            Some(next) => {
                sum = next;
            },
            None => {
                proof {
                    lemma_widths_prefix_monotone(all, i + 1, all.len() as int);
                    assert(all.take(all.len() as int) =~= all);
                }
                return None;
            },
        }
        i = i + 1;
    }
    assert(all.take(gs.len() as int) =~= all);
    Some(sum)
}

/// Number of terminal cells that a value occupies when rendered.
pub trait DisplayWidth {
    /// The width, as a mathematical integer.
    spec fn spec_width(&self) -> int;

    fn width(&self) -> (r: usize)
        requires
            self.spec_width() <= usize::MAX,
        ensures
            r == self.spec_width(),
    ;
}

impl DisplayWidth for str {
    open spec fn spec_width(&self) -> int {
        display_width(self@)
    }

    fn width(&self) -> (r: usize) {
        if self.is_ascii() {
            return ascii_width(self);
        }
        // Cells are rendered independently, so ligatures cannot span graphemes.
        let gs = graphemes_of(self, true);
        checked_sum_widths(&gs).unwrap()
    }
}

/// The width of `s`, or `None` where it does not fit in `usize`.
pub fn checked_width(s: &str) -> (r: Option<usize>)
    ensures
        r == (if display_width(s@) <= usize::MAX {
            Some(display_width(s@) as usize)
        } else {
            None
        }),
{
    if s.is_ascii() {
        proof {
            lemma_visible_count_bound(s@);
            is_ascii_chars_encode_utf8(s@);
        }
        let n = s.as_bytes().len();
        assert(s@.len() == n);
        return Some(s.width());
    }
    let gs = graphemes_of(s, true);
    checked_sum_widths(&gs)
}

} // verus!
