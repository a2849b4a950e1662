use vstd::prelude::*;
use vstd::string::*;
use unicode_segmentation::UnicodeSegmentation;

verus! {

/// The extended grapheme clusters of a text, in order.
pub uninterp spec fn graphemes_of(s: Seq<char>) -> Seq<Seq<char>>;

/// The characters of each string.
pub open spec fn cluster_views(v: Seq<String>) -> Seq<Seq<char>> {
    v.map_values(|g: String| g@)
}

/// The clusters written one after another.
pub open spec fn concat_all(gs: Seq<Seq<char>>) -> Seq<char>
    decreases gs.len(),
{
    if gs.len() == 0 {
        Seq::empty()
    } else {
        concat_all(gs.drop_last()) + gs.last()
    }
}

/// Every cluster holds at least one character.
pub open spec fn clusters_nonempty(gs: Seq<Seq<char>>) -> bool {
    forall|i: int| 0 <= i < gs.len() ==> #[trigger] gs[i].len() > 0
}

/// Length in bytes of the UTF-8 encoding of `s`.
pub open spec fn byte_len(s: Seq<char>) -> nat {
    vstd::utf8::encode_utf8(s).len()
}

pub proof fn lemma_byte_len_append(a: Seq<char>, b: Seq<char>)
    ensures
        byte_len(a + b) == byte_len(a) + byte_len(b),
    decreases a.len(),
{
    if a.len() > 0 {
        lemma_byte_len_append(a.drop_first(), b);
        assert((a + b).drop_first() =~= a.drop_first() + b);
    } else {
        assert(a + b =~= b);
    }
}

/// Bytes that the UTF-8 encoding of `c` takes.
fn utf8_width(c: char) -> (w: usize)
    ensures
        w == vstd::utf8::encode_scalar(c as u32).len(),
{
    let u = c as u32;
    if u <= 0x7f {
        1
    } else if u <= 0x7ff {
        2
    } else if u <= 0xffff && !(0xd800 <= u && u <= 0xdfff) {
        3
    } else {
        4
    }
}

/// The UTF-8 length of `s` in bytes, when it is at most `budget`.
pub fn byte_len_within(s: &str, budget: usize) -> (r: Option<usize>)
    ensures
        match r {
            Some(n) => n == byte_len(s@) && n <= budget,
            None => byte_len(s@) > budget,
        },
{
    let n = s.unicode_len();
    let mut i: usize = 0;
    let mut total: usize = 0;
    assert(s@.take(0) =~= Seq::<char>::empty());
    while i < n
        invariant
            n == s@.len(),
            i <= n,
            total <= budget,
            total == byte_len(s@.take(i as int)),
        decreases n - i,
    {
        let c = s.get_char(i);
        let w = utf8_width(c);
        proof {
            lemma_byte_len_append(s@.take(i as int), seq![c]);
            assert(s@.take(i as int) + seq![c] =~= s@.take(i as int + 1));
            assert(vstd::utf8::encode_utf8(seq![c]) =~= vstd::utf8::encode_scalar(c as u32)
                + vstd::utf8::encode_utf8(seq![c].drop_first()));
            assert(seq![c].drop_first() =~= Seq::<char>::empty());
        }
        if w > budget - total {
            proof {
                lemma_byte_len_append(s@.take(i as int + 1), s@.skip(i as int + 1));
                assert(s@.take(i as int + 1) + s@.skip(i as int + 1) =~= s@);
            }
            return None;
        }
        total = total + w;
        i = i + 1;
    }
    assert(s@.take(i as int) =~= s@);
    Some(total)
}

/// Relies on `UnicodeSegmentation::graphemes(s, true)` (unicode-segmentation): it yields the
/// extended grapheme clusters of `s` as consecutive, non-empty slices that cover `s`.
#[verifier::external_body]
pub(crate) fn split_graphemes(s: &str) -> (r: Vec<String>)
    ensures
        cluster_views(r@) == graphemes_of(s@),
        concat_all(cluster_views(r@)) == s@,
        clusters_nonempty(cluster_views(r@)),
{
    s.graphemes(true).map(|g| g.to_string()).collect()
}

pub proof fn lemma_concat_all_append(a: Seq<Seq<char>>, b: Seq<Seq<char>>)
    ensures
        concat_all(a + b) == concat_all(a) + concat_all(b),
    decreases b.len(),
{
    if b.len() == 0 {
        assert(a + b =~= a);
        assert(concat_all(b) =~= Seq::<char>::empty());
        assert(concat_all(a) + concat_all(b) =~= concat_all(a));
    } else {
        lemma_concat_all_append(a, b.drop_last());
        assert((a + b).drop_last() =~= a + b.drop_last());
        assert(concat_all(a) + concat_all(b) =~= concat_all(a) + concat_all(b.drop_last()) + b.last());
    }
}

pub proof fn lemma_concat_all_drop_first(gs: Seq<Seq<char>>)
    requires
        gs.len() > 0,
    ensures
        concat_all(gs) == gs[0] + concat_all(gs.drop_first()),
{
    lemma_concat_all_append(seq![gs[0]], gs.drop_first());
    assert(seq![gs[0]] + gs.drop_first() =~= gs);
    assert(seq![gs[0]].drop_last() =~= Seq::<Seq<char>>::empty());
    assert(concat_all(seq![gs[0]].drop_last()) =~= Seq::<char>::empty());
    assert(concat_all(seq![gs[0]]) =~= gs[0]);
}

/// The grapheme clusters of a message that are still to be read, front first.
pub struct MessageGraphemes {
    clusters: Vec<String>,
}

impl View for MessageGraphemes {
    type V = Seq<Seq<char>>;

    closed spec fn view(&self) -> Seq<Seq<char>> {
        cluster_views(self.clusters@)
    }
}

impl MessageGraphemes {
    /// No cluster is empty.
    pub open spec fn wf(&self) -> bool {
        clusters_nonempty(self@)
    }

    /// The grapheme clusters of `text`.
    pub fn new(text: &str) -> (r: MessageGraphemes)
        ensures
            r.wf(),
            r@ == graphemes_of(text@),
            concat_all(r@) == text@,
    {
        MessageGraphemes { clusters: split_graphemes(text) }
    }

    /// Number of clusters left.
    pub fn len(&self) -> (r: usize)
        ensures
            r == self@.len(),
    {
        self.clusters.len()
    }

    /// Takes the front cluster, if any.
    pub fn next(&mut self) -> (r: Option<String>)
        requires
            old(self).wf(),
        ensures
            final(self).wf(),
            old(self)@.len() == 0 ==> r is None && final(self)@ == old(self)@,
            old(self)@.len() > 0 ==> r is Some && r->0@ == old(self)@[0] && final(self)@
                == old(self)@.drop_first(),
    {
        if self.clusters.len() == 0 {
            None
        } else {
            let g = self.clusters.remove(0);
            assert(self@ =~= old(self)@.drop_first());
            Some(g)
        }
    }

    /// The clusters left, as strings.
    pub fn remaining(&self) -> (r: Vec<String>)
        ensures
            cluster_views(r@) == self@,
    {
        self.clusters.clone()
    }

    /// The text left, the clusters written one after another.
    pub fn as_string(&self) -> (r: String)
        ensures
            r@ == concat_all(self@),
    {
        let mut s = String::new();
        let mut i: usize = 0;
        while i < self.clusters.len()
            invariant
                i <= self@.len(),
                s@ == concat_all(self@.take(i as int)),
            decreases self@.len() - i,
        {
            assert(self@.take(i as int + 1).drop_last() =~= self@.take(i as int));
            s.append(self.clusters[i].as_str());
            i = i + 1;
        }
        assert(self@.take(i as int) =~= self@);
        s
    }
}

} // verus!
