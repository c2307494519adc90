//! One line of text: its grapheme clusters, their rendering and the screen
//! columns each one covers.

use unicode_segmentation::UnicodeSegmentation;
use vstd::prelude::*;

use crate::{EditError, TAB_STOP};

verus! {

/// The extended grapheme clusters of a text, in order.
pub uninterp spec fn graphemes_of(s: Seq<char>) -> Seq<Seq<char>>;

/// The texts held by a sequence of strings.
pub open spec fn texts(v: Seq<String>) -> Seq<Seq<char>> {
    v.map_values(|g: String| g@)
}

/// The text made of a sequence of clusters, one after another.
pub open spec fn concat(gs: Seq<Seq<char>>) -> Seq<char>
    decreases gs.len(),
{
    if gs.len() == 0 {
        seq![]
    } else {
        concat(gs.drop_last()) + gs.last()
    }
}

/// Each cluster holds at least one character.
pub open spec fn all_nonempty(gs: Seq<Seq<char>>) -> bool {
    forall|i: int| 0 <= i < gs.len() ==> (#[trigger] gs[i]).len() > 0
}

/// Splits a text into its extended grapheme clusters.
///
/// Relies on `UnicodeSegmentation::graphemes(s, true)`: it yields consecutive,
/// non-empty slices of `s` that together make up all of `s`, and which slices
/// these are depends on the characters of `s` alone.
#[verifier::external_body]
fn split_graphemes(s: &str) -> (r: Vec<String>)
    ensures
        texts(r@) == graphemes_of(s@),
        concat(texts(r@)) == s@,
        all_nonempty(texts(r@)),
{
    s.graphemes(true).map(|g| g.to_string()).collect()
}

/// Appends one character to a string.
///
/// Relies on `String::push`, which appends the character at the end.
#[verifier::external_body]
pub(crate) fn push_char(s: &mut String, c: char)
    ensures
        final(s)@ == old(s)@.push(c),
{
    s.push(c)
}

/// A cluster that is a tab alone.
pub open spec fn is_tab(g: Seq<char>) -> bool {
    g == seq!['\t']
}

/// Screen columns taken by cluster `g` when it starts at column `col`: a tab
/// reaches the next multiple of the tab stop, anything else takes one.
pub open spec fn cluster_width(col: nat, g: Seq<char>) -> nat {
    if is_tab(g) {
        (TAB_STOP - col % (TAB_STOP as nat)) as nat
    } else {
        1
    }
}

/// The screen column just after the last of a sequence of clusters.
pub open spec fn end_column(gs: Seq<Seq<char>>) -> nat
    decreases gs.len(),
{
    if gs.len() == 0 {
        0
    } else {
        let c = end_column(gs.drop_last());
        c + cluster_width(c, gs.last())
    }
}

/// The screen column at which cluster `i` starts.
pub open spec fn column_of(gs: Seq<Seq<char>>, i: int) -> nat {
    end_column(gs.take(i))
}

/// What cluster `g` shows when it starts at column `col`: a tab becomes spaces
/// up to the next tab stop, anything else shows as it is.
pub open spec fn rendered_cluster(col: nat, g: Seq<char>) -> Seq<char> {
    if is_tab(g) {
        Seq::new(cluster_width(col, g), |_k: int| ' ')
    } else {
        g
    }
}

/// What a sequence of clusters shows on screen.
pub open spec fn rendered(gs: Seq<Seq<char>>) -> Seq<char>
    decreases gs.len(),
{
    if gs.len() == 0 {
        seq![]
    } else {
        rendered(gs.drop_last()) + rendered_cluster(end_column(gs.drop_last()), gs.last())
    }
}

/// Screen columns between the starts of clusters `a` and `b`, in either order.
pub open spec fn distance(gs: Seq<Seq<char>>, a: int, b: int) -> nat {
    if a <= b {
        (column_of(gs, b) - column_of(gs, a)) as nat
    } else {
        (column_of(gs, a) - column_of(gs, b)) as nat
    }
}

proof fn lemma_take_succ(gs: Seq<Seq<char>>, i: int)
    requires
        0 <= i < gs.len(),
    ensures
        gs.take(i + 1).drop_last() == gs.take(i),
        gs.take(i + 1).last() == gs[i],
        end_column(gs.take(i + 1)) == end_column(gs.take(i)) + cluster_width(end_column(gs.take(i)), gs[i]),
        rendered(gs.take(i + 1)) == rendered(gs.take(i)) + rendered_cluster(end_column(gs.take(i)), gs[i]),
        concat(gs.take(i + 1)) == concat(gs.take(i)) + gs[i],
{
    assert(gs.take(i + 1).drop_last() =~= gs.take(i));
}

/// Columns never go back: a later cluster starts no earlier.
proof fn lemma_column_monotone(gs: Seq<Seq<char>>, i: int, j: int)
    requires
        0 <= i <= j <= gs.len(),
    ensures
        column_of(gs, i) <= column_of(gs, j),
    decreases j - i,
{
    if i < j {
        lemma_column_monotone(gs, i, j - 1);
        lemma_take_succ(gs, j - 1);
    }
}

/// A rendering is at least as long as the columns it covers.
proof fn lemma_rendered_covers(gs: Seq<Seq<char>>)
    requires
        all_nonempty(gs),
    ensures
        end_column(gs) <= rendered(gs).len(),
    decreases gs.len(),
{
    if gs.len() > 0 {
        let p = gs.drop_last();
        assert(all_nonempty(p)) by {
            assert forall|i: int| 0 <= i < p.len() implies (#[trigger] p[i]).len() > 0 by {
                assert(p[i] == gs[i]);
            }
        }
        lemma_rendered_covers(p);
        assert(gs.last() == gs[gs.len() - 1]);
    }
}

/// One line of text.
pub struct Row {
    /// The text as stored.
    pub raw: String,
    /// The text as shown, tabs expanded to spaces.
    pub render: String,
    /// The grapheme clusters of `raw`, in order.
    pub clusters: Vec<String>,
    /// Screen columns taken by each cluster.
    pub widths: Vec<usize>,
}

impl View for Row {
    type V = Seq<Seq<char>>;

    /// The grapheme clusters of the line.
    open spec fn view(&self) -> Seq<Seq<char>> {
        texts(self.clusters@)
    }
}

impl Row {
    /// Screen columns taken by each cluster, as recorded.
    pub open spec fn widths_recorded(&self) -> bool {
        &&& self.widths@.len() == self@.len()
        &&& forall|i: int|
            0 <= i < self@.len() ==> #[trigger] self.widths@[i] == cluster_width(
                column_of(self@, i),
                self@[i],
            )
        &&& end_column(self@) <= usize::MAX
    }

    /// The clusters are those of `raw`, and `render` shows them.
    pub open spec fn wf(&self) -> bool {
        &&& self@ == graphemes_of(self.raw@)
        &&& concat(self@) == self.raw@
        &&& all_nonempty(self@)
        &&& self.render@ == rendered(self@)
        &&& self.widths_recorded()
    }

    /// A line with no text.
    pub fn empty() -> (r: Row)
        ensures
            r.wf(),
            r.raw@ == Seq::<char>::empty(),
            r@.len() == 0,
    {
        let r = Row::new(String::new());
        proof {
            lemma_concat_len(r@);
        }
        r
    }

    /// A line holding `line`.
    pub fn new(line: String) -> (r: Row)
        ensures
            r.wf(),
            r.raw@ == line@,
            !line@.contains('\t') ==> r.render@ == line@,
    {
        let mut row = Row { raw: line, render: String::new(), clusters: Vec::new(), widths: Vec::new() };
        row.do_render();
        proof {
            if !line@.contains('\t') {
                lemma_render_without_tabs(&row);
            }
        }
        row
    }

    /// Recomputes the clusters, the rendering and the widths from `raw`.
    fn do_render(&mut self)
        ensures
            final(self).wf(),
            final(self).raw == old(self).raw,
    {
        let clusters = split_graphemes(self.raw.as_str());
        let (render, widths) = render_clusters(&clusters);
        self.clusters = clusters;
        self.render = render;
        self.widths = widths;
    }

    /// Number of grapheme clusters in the line.
    pub fn len(&self) -> (r: usize)
        requires
            self.wf(),
        ensures
            r == self@.len(),
    {
        self.clusters.len()
    }

    /// Whether the line has no grapheme cluster.
    pub fn is_empty(&self) -> (r: bool)
        requires
            self.wf(),
        ensures
            r == (self@.len() == 0),
    {
        self.len() == 0
    }

    /// Screen columns between the starts of clusters `from` and `to`, in
    /// either order.
    pub fn visual_distance(&self, from: usize, to: usize) -> (r: usize)
        requires
            self.wf(),
            from <= self@.len(),
            to <= self@.len(),
        ensures
            r == distance(self@, from as int, to as int),
    {
        let (lo, hi) = if from <= to {
            (from, to)
        } else {
            (to, from)
        };
        let ghost gs = self@;
        proof {
            lemma_column_monotone(gs, lo as int, hi as int);
            lemma_column_monotone(gs, hi as int, gs.len() as int);
            assert(gs.take(gs.len() as int) =~= gs);
        }
        let mut sum: usize = 0;
        let mut k: usize = lo;
        while k < hi
            invariant
                self.wf(),
                gs == self@,
                lo <= k <= hi <= gs.len(),
                sum == column_of(gs, k as int) - column_of(gs, lo as int),
                column_of(gs, lo as int) <= column_of(gs, k as int),
                column_of(gs, hi as int) <= usize::MAX,
            decreases hi - k,
        {
            proof {
                lemma_take_succ(gs, k as int);
                lemma_column_monotone(gs, k as int + 1, hi as int);
            }
            sum = sum + self.widths[k];
            k = k + 1;
        }
        sum
    }

    /// Inserts character `c` before cluster `at` (at the end when `at` is the
    /// length), then renders the line again.
    pub fn insert_char(&mut self, at: usize, c: char)
        requires
            old(self).wf(),
            at <= old(self)@.len(),
        ensures
            final(self).wf(),
            final(self).raw@ == concat(old(self)@.insert(at as int, seq![c])),
    {
        let ghost gs = self@;
        let ghost ins = gs.insert(at as int, seq![c]);
        let mut raw = String::new();
        let mut k: usize = 0;
        let n = self.clusters.len();
        while k < n
            invariant
                self.wf(),
                gs == self@,
                n == gs.len(),
                at <= n,
                ins == gs.insert(at as int, seq![c]),
                k <= n,
                k <= at ==> raw@ == concat(gs.take(k as int)),
                k > at ==> raw@ == concat(ins.take(k as int + 1)),
            decreases n - k,
        {
            proof {
                lemma_take_succ(gs, k as int);
            }
            if k == at {
                push_char(&mut raw, c);
                proof {
                    lemma_take_succ(ins, k as int);
                    assert(ins.take(k as int) =~= gs.take(k as int));
                }
            }
            raw.append(self.clusters[k].as_str());
            proof {
                if k >= at {
                    lemma_take_succ(ins, k as int + 1);
                    if k > at {
                        assert(ins[k + 1] == gs[k as int]);
                    }
                }
            }
            k = k + 1;
        }
        if at == n {
            push_char(&mut raw, c);
            proof {
                lemma_take_succ(ins, n as int);
                assert(ins.take(n as int) =~= gs.take(n as int));
            }
        }
        proof {
            assert(ins.take(n as int + 1) =~= ins);
            assert(gs.take(n as int) =~= gs);
        }
        self.raw = raw;
        self.do_render();
    }

    /// Removes cluster `at`, then renders the line again.
    pub fn remove_char(&mut self, at: usize) -> (r: Result<(), EditError>)
        requires
            old(self).wf(),
        ensures
            final(self).wf(),
            old(self)@.len() == 0 ==> r == Err::<(), EditError>(EditError::EmptyLine),
            old(self)@.len() > 0 && at >= old(self)@.len() ==> r == Err::<(), EditError>(EditError::OutOfBounds),
            at < old(self)@.len() ==> r == Ok::<(), EditError>(()),
            r is Ok ==> final(self).raw@ == concat(old(self)@.remove(at as int)),
            r is Err ==> *final(self) == *old(self),
    {
        let n = self.clusters.len();
        if n == 0 {
            return Err(EditError::EmptyLine);
        }
        if at >= n {
            return Err(EditError::OutOfBounds);
        }
        let ghost gs = self@;
        let ghost rem = gs.remove(at as int);
        let mut raw = String::new();
        let mut k: usize = 0;
        while k < n
            invariant
                self.wf(),
                gs == self@,
                n == gs.len(),
                at < n,
                rem == gs.remove(at as int),
                k <= n,
                k <= at ==> raw@ == concat(gs.take(k as int)),
                k > at ==> raw@ == concat(rem.take(k as int - 1)),
            decreases n - k,
        {
            proof {
                lemma_take_succ(gs, k as int);
            }
            if k != at {
                raw.append(self.clusters[k].as_str());
                proof {
                    if k > at {
                        lemma_take_succ(rem, k as int - 1);
                        assert(rem[k - 1] == gs[k as int]);
                    }
                }
            } else {
                assert(rem.take(k as int) =~= gs.take(k as int));
            }
            k = k + 1;
        }
        assert(rem.take(n as int - 1) =~= rem);
        self.raw = raw;
        self.do_render();
        Ok(())
    }

    /// The text of cluster `index`.
    pub fn grapheme_at(&self, index: usize) -> (r: Result<String, EditError>)
        requires
            self.wf(),
        ensures
            index < self@.len() ==> (r matches Ok(g) && g@ == self@[index as int]),
            index >= self@.len() ==> r == Err::<String, EditError>(EditError::OutOfBounds),
    {
        if index < self.clusters.len() {
            Ok(self.clusters[index].clone())
        } else {
            Err(EditError::OutOfBounds)
        }
    }
}

/// Renders a sequence of clusters: a tab becomes spaces up to the next tab
/// stop, anything else shows as it is. Returns the rendering and the screen
/// columns each cluster takes.
pub fn render_clusters(clusters: &Vec<String>) -> (r: (String, Vec<usize>))
    requires
        all_nonempty(texts(clusters@)),
    ensures
        r.0@ == rendered(texts(clusters@)),
        r.1@.len() == clusters@.len(),
        forall|i: int|
            0 <= i < clusters@.len() ==> #[trigger] r.1@[i] == cluster_width(
                column_of(texts(clusters@), i),
                clusters@[i]@,
            ),
        end_column(texts(clusters@)) <= usize::MAX,
{
    let ghost gs = texts(clusters@);
    let mut shown: Vec<char> = Vec::new();
    let mut widths: Vec<usize> = Vec::new();
    let mut phase: usize = 0;
    let mut i: usize = 0;
    while i < clusters.len()
        invariant
            gs == texts(clusters@),
            0 <= i <= clusters@.len(),
            phase == end_column(gs.take(i as int)) % (TAB_STOP as nat),
            shown@ == rendered(gs.take(i as int)),
            widths@.len() == i,
            forall|k: int| 0 <= k < i ==> #[trigger] widths@[k] == cluster_width(column_of(gs, k), gs[k]),
        decreases clusters@.len() - i,
    {
        proof {
            lemma_take_succ(gs, i as int);
        }
        let g = &clusters[i];
        let ghost col = end_column(gs.take(i as int));
        assert(g@ == gs[i as int]);
        if is_tab_cluster(g.as_str()) {
            let w = TAB_STOP - phase;
            let mut k: usize = 0;
            let ghost before = shown@;
            while k < w
                invariant
                    k <= w,
                    shown@ == before + Seq::new(k as nat, |_j: int| ' '),
                decreases w - k,
            {
                shown.push(' ');
                k = k + 1;
                assert(shown@ =~= before + Seq::new(k as nat, |_j: int| ' '));
            }
            assert(shown@ =~= rendered(gs.take(i + 1)));
            widths.push(w);
            phase = 0;
            proof {
                assert(col + (TAB_STOP - col % 8) == (col / 8 + 1) * 8) by (nonlinear_arith)
                    requires col % 8 < 8, col == (col / 8) * 8 + col % 8;
                assert(((col / 8 + 1) * 8) % 8 == 0) by (nonlinear_arith);
            }
        } else {
            let n = g.as_str().unicode_len();
            let mut j: usize = 0;
            let ghost before = shown@;
            while j < n
                invariant
                    n == g@.len(),
                    j <= n,
                    shown@ == before + g@.take(j as int),
                decreases n - j,
            {
                shown.push(g.as_str().get_char(j));
                j = j + 1;
                assert(shown@ =~= before + g@.take(j as int));
            }
            assert(g@.take(n as int) =~= g@);
            widths.push(1);
            phase = (phase + 1) % TAB_STOP;
            proof {
                vstd::arithmetic::div_mod::lemma_add_mod_noop(col as int, 1, 8);
            }
        }
        i = i + 1;
    }
    assert(gs.take(clusters@.len() as int) =~= gs);
    proof {
        lemma_rendered_covers(gs);
        assert(shown@.len() == shown.len());
    }
    (string_of_chars(&shown), widths)
}

/// Makes a string of a sequence of characters.
///
/// Relies on `String::from_iter` over characters, which holds them in order.
#[verifier::external_body]
fn string_of_chars(v: &Vec<char>) -> (r: String)
    ensures
        r@ == v@,
{
    v.iter().collect()
}

/// Whether a cluster is a tab alone.
fn is_tab_cluster(g: &str) -> (r: bool)
    ensures
        r == is_tab(g@),
{
    if g.unicode_len() == 1 {
        let c = g.get_char(0);
        assert(c == '\t' ==> g@ =~= seq!['\t']);
        c == '\t'
    } else {
        false
    }
}

/// A cluster that is a tab puts a tab character into the joined text.
proof fn lemma_tab_in_concat(gs: Seq<Seq<char>>, i: int)
    requires
        0 <= i < gs.len(),
        is_tab(gs[i]),
    ensures
        concat(gs).contains('\t'),
    decreases gs.len(),
{
    let p = gs.drop_last();
    if i == gs.len() - 1 {
        assert(concat(gs)[concat(p).len() as int] == '\t');
    } else {
        assert(p[i] == gs[i]);
        lemma_tab_in_concat(p, i);
        let k = choose|k: int| 0 <= k < concat(p).len() && concat(p)[k] == '\t';
        assert(concat(gs)[k] == '\t');
    }
}

/// Without tab clusters, the rendering is the joined text.
proof fn lemma_rendered_without_tabs(gs: Seq<Seq<char>>)
    requires
        forall|i: int| 0 <= i < gs.len() ==> !is_tab(#[trigger] gs[i]),
    ensures
        rendered(gs) == concat(gs),
    decreases gs.len(),
{
    if gs.len() > 0 {
        let p = gs.drop_last();
        assert forall|i: int| 0 <= i < p.len() implies !is_tab(#[trigger] p[i]) by {
            assert(p[i] == gs[i]);
        }
        lemma_rendered_without_tabs(p);
        assert(!is_tab(gs[gs.len() - 1]));
    }
}

/// Non-empty clusters join into a text at least as long as their count.
proof fn lemma_concat_len(gs: Seq<Seq<char>>)
    requires
        all_nonempty(gs),
    ensures
        concat(gs).len() >= gs.len(),
    decreases gs.len(),
{
    if gs.len() > 0 {
        let p = gs.drop_last();
        assert forall|i: int| 0 <= i < p.len() implies (#[trigger] p[i]).len() > 0 by {
            assert(p[i] == gs[i]);
        }
        lemma_concat_len(p);
        assert(gs[gs.len() - 1].len() > 0);
    }
}

/// A line whose text holds no tab character shows exactly its text.
pub proof fn lemma_render_without_tabs(r: &Row)
    requires
        r.wf(),
        !r.raw@.contains('\t'),
    ensures
        r.render@ == r.raw@,
{
    assert forall|i: int| 0 <= i < r@.len() implies !is_tab(#[trigger] r@[i]) by {
        if is_tab(r@[i]) {
            lemma_tab_in_concat(r@, i);
        }
    }
    lemma_rendered_without_tabs(r@);
}

/// A line that is one tab shows as one full tab stop of spaces.
pub proof fn lemma_render_single_tab(r: &Row)
    requires
        r.wf(),
        r.raw@ == seq!['\t'],
    ensures
        r.render@.len() == TAB_STOP,
        forall|k: int| 0 <= k < r.render@.len() ==> r.render@[k] == ' ',
{
    let gs = r@;
    lemma_concat_len(gs);
    if gs.len() == 0 {
        assert(concat(gs).len() == 0);
    }
    assert(gs.len() == 1);
    let e = gs.drop_last();
    assert(e =~= Seq::<Seq<char>>::empty());
    assert(concat(e) == Seq::<char>::empty());
    assert(end_column(e) == 0);
    assert(rendered(e) == Seq::<char>::empty());
    assert(concat(gs) =~= gs.last());
    assert(is_tab(gs.last()));
    assert(r.render@ =~= Seq::new(8, |_k: int| ' '));
}

/// The screen distance between two cluster positions does not depend on
/// their order.
pub proof fn lemma_distance_symmetric(r: &Row, a: int, b: int)
    requires
        r.wf(),
        0 <= a <= r@.len(),
        0 <= b <= r@.len(),
    ensures
        distance(r@, a, b) == distance(r@, b, a),
{
}

/// Inserting a character and then removing the cluster at the same index
/// gives back the text as it was, wherever the character forms a cluster of
/// its own at that place.
pub proof fn lemma_insert_then_remove(r: &Row, i: int, c: char)
    requires
        r.wf(),
        0 <= i <= r@.len(),
        graphemes_of(concat(r@.insert(i, seq![c]))) == r@.insert(i, seq![c]),
    ensures
        concat(graphemes_of(concat(r@.insert(i, seq![c]))).remove(i)) == r.raw@,
{
    assert(r@.insert(i, seq![c]).remove(i) =~= r@);
}

} // verus!
