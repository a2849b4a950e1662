use vstd::prelude::*;
use vstd::string::*;
use crate::graphemes::{
    byte_len, byte_len_within, cluster_views, lemma_byte_len_append, concat_all, graphemes_of, lemma_concat_all_append,
    lemma_concat_all_drop_first, split_graphemes, MessageGraphemes,
};

verus! {

/// Most bytes a thread name may take.
pub const MAX_THREAD_NAME_LENGTH_BYTES: usize = 100;

/// What stands between the requester's name and the message in a thread name.
pub open spec fn separator() -> Seq<char> {
    seq![' ', '|', ' ']
}

/// How many clusters from the front of `gs` fit, together, in `budget` bytes.
pub open spec fn within_count(gs: Seq<Seq<char>>, budget: int) -> nat
    decreases gs.len(),
{
    if gs.len() == 0 {
        0
    } else if byte_len(gs[0]) <= budget {
        1 + within_count(gs.drop_first(), budget - byte_len(gs[0]))
    } else {
        0
    }
}

/// The clusters a thread name is cut from: the name's, the separator's, then the message's.
pub open spec fn thread_name_clusters(author: Seq<char>, msg: Seq<Seq<char>>) -> Seq<Seq<char>> {
    graphemes_of(author) + graphemes_of(separator()) + msg
}

/// The thread name: the longest run of whole clusters from the front that fits the limit.
pub open spec fn thread_name_spec(author: Seq<char>, msg: Seq<Seq<char>>) -> Seq<char> {
    let gs = thread_name_clusters(author, msg);
    concat_all(gs.take(within_count(gs, MAX_THREAD_NAME_LENGTH_BYTES as int) as int))
}

/// The clusters that fit are at most all of them, and together they fit.
pub proof fn lemma_within_count(gs: Seq<Seq<char>>, budget: int)
    requires
        budget >= 0,
    ensures
        within_count(gs, budget) <= gs.len(),
        byte_len(concat_all(gs.take(within_count(gs, budget) as int))) <= budget,
    decreases gs.len(),
{
    let k = within_count(gs, budget) as int;
    if k == 0 {
        assert(gs.take(0) =~= Seq::<Seq<char>>::empty());
        assert(concat_all(gs.take(0)) =~= Seq::<char>::empty());
    } else {
        let rest = gs.drop_first();
        let b = budget - byte_len(gs[0]);
        lemma_within_count(rest, b);
        lemma_concat_all_drop_first(gs.take(k));
        assert(gs.take(k).drop_first() =~= rest.take(k - 1));
        lemma_byte_len_append(gs[0], concat_all(rest.take(k - 1)));
    }
}

/// A thread name never exceeds the byte limit, and it is the concatenation of a run of whole
/// clusters from the front of the name's, the separator's and the message's clusters.
pub proof fn lemma_thread_name_fits(author: Seq<char>, msg: Seq<Seq<char>>)
    ensures
        byte_len(thread_name_spec(author, msg)) <= MAX_THREAD_NAME_LENGTH_BYTES,
        exists|k: int|
            0 <= k <= thread_name_clusters(author, msg).len() && thread_name_spec(author, msg)
                == concat_all(#[trigger] thread_name_clusters(author, msg).take(k)),
{
    let gs = thread_name_clusters(author, msg);
    lemma_within_count(gs, MAX_THREAD_NAME_LENGTH_BYTES as int);
    let k = within_count(gs, MAX_THREAD_NAME_LENGTH_BYTES as int) as int;
    assert(thread_name_spec(author, msg) == concat_all(gs.take(k)));
}

fn append_clusters(all: &mut Vec<String>, more: Vec<String>)
    ensures
        cluster_views(final(all)@) == cluster_views(old(all)@) + cluster_views(more@),
{
    let mut more = more;
    let ghost extra = more@;
    all.append(&mut more);
    assert(cluster_views(all@) =~= cluster_views(old(all)@) + cluster_views(extra));
}

/// Builds a thread title `"{author_name} | {message}"`, cut after the last whole grapheme
/// cluster that keeps it within `MAX_THREAD_NAME_LENGTH_BYTES` bytes.
pub fn generate_thread_name(author_name: &str, msg_graphemes: MessageGraphemes) -> (r: String)
    ensures
        r@ == thread_name_spec(author_name@, msg_graphemes@),
        byte_len(r@) <= MAX_THREAD_NAME_LENGTH_BYTES,
        r@.is_prefix_of(author_name@ + separator() + concat_all(msg_graphemes@)),
        exists|k: int|
            0 <= k <= thread_name_clusters(author_name@, msg_graphemes@).len() && r@ == concat_all(
                #[trigger] thread_name_clusters(author_name@, msg_graphemes@).take(k),
            ),
{
    let mut all = split_graphemes(author_name);
    let ghost author_part = all@;
    let sep = " | ";
    proof {
        reveal_strlit(" | ");
    }
    assert(sep@ =~= separator());
    let sep_clusters = split_graphemes(sep);
    let ghost sep_part = sep_clusters@;
    append_clusters(&mut all, sep_clusters);
    let msg_part = msg_graphemes.remaining();
    let ghost msg_part_view = msg_part@;
    append_clusters(&mut all, msg_part);
    let ghost gs = cluster_views(all@);
    assert(gs =~= thread_name_clusters(author_name@, msg_graphemes@));
    let mut name = String::new();
    let mut byte_count: usize = 0;
    let mut i: usize = 0;
    let mut ended = false;
    assert(gs.skip(0) =~= gs);
    assert(gs.take(0) =~= Seq::<Seq<char>>::empty());
    while !ended && i < all.len()
        invariant
            gs == cluster_views(all@),
            i <= all@.len(),
            byte_count <= MAX_THREAD_NAME_LENGTH_BYTES,
            within_count(gs, MAX_THREAD_NAME_LENGTH_BYTES as int) == i + within_count(
                gs.skip(i as int),
                MAX_THREAD_NAME_LENGTH_BYTES - byte_count,
            ),
            ended ==> within_count(gs.skip(i as int), MAX_THREAD_NAME_LENGTH_BYTES - byte_count)
                == 0,
            name@ == concat_all(gs.take(i as int)),
        decreases all@.len() - i + (if ended { 0int } else { 1int }),
    {
        let g = all[i].as_str();
        assert(g@ == gs[i as int]);
        let ghost rest = gs.skip(i as int);
        assert(rest[0] == gs[i as int]);
        assert(rest.drop_first() =~= gs.skip(i as int + 1));
        match byte_len_within(g, MAX_THREAD_NAME_LENGTH_BYTES - byte_count) {
            None => {
                ended = true;
            },
            Some(n) => {
                assert(gs.take(i as int + 1).drop_last() =~= gs.take(i as int));
                name.append(g);
                byte_count = byte_count + n;
                i = i + 1;
            },
        }
    }
    if !ended {
        assert(gs.skip(i as int).len() == 0);
    }
    proof {
        lemma_within_count(gs, MAX_THREAD_NAME_LENGTH_BYTES as int);
        lemma_concat_all_append(gs.take(i as int), gs.skip(i as int));
        assert(gs.take(i as int) + gs.skip(i as int) =~= gs);
        lemma_concat_all_append(cluster_views(author_part), cluster_views(sep_part));
        lemma_concat_all_append(
            cluster_views(author_part) + cluster_views(sep_part),
            cluster_views(msg_part_view),
        );
        assert(gs =~= cluster_views(author_part) + cluster_views(sep_part) + cluster_views(
            msg_part_view,
        ));
        assert(name@.is_prefix_of(author_name@ + separator() + concat_all(msg_graphemes@)));
    }
    name
}

} // verus!
