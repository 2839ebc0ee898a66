//! Stable insertion sort of article links, descending by name, with the
//! specification-level sort it is proved to compute.

use vstd::prelude::*;
use crate::model::ArticleLink;
use crate::model::ArticleLinkView;
use crate::order::lex_leq;
use crate::order::lemma_lex_leq_total;
use crate::order::lemma_lex_leq_trans;
use crate::order::name_leq;

verus! {

/// The mathematical values of a sequence of links.
pub open spec fn link_views(s: Seq<ArticleLink>) -> Seq<ArticleLinkView> {
    s.map_values(|l: ArticleLink| l@)
}

/// Names never increase along the sequence.
pub open spec fn sorted_desc(s: Seq<ArticleLinkView>) -> bool {
    forall|i: int, j: int| 0 <= i < j < s.len() ==> lex_leq(s[j].name, s[i].name)
}

/// Where a stable descending insertion puts `x`: after every element whose
/// name is at least `x.name`, before the rest.
pub open spec fn insert_desc(s: Seq<ArticleLinkView>, x: ArticleLinkView) -> Seq<ArticleLinkView>
    decreases s.len(),
{
    if s.len() == 0 {
        seq![x]
    } else if lex_leq(x.name, s[0].name) {
        seq![s[0]] + insert_desc(s.skip(1), x)
    } else {
        seq![x] + s
    }
}

/// Stable insertion sort, descending by name.
pub open spec fn sort_desc(s: Seq<ArticleLinkView>) -> Seq<ArticleLinkView>
    decreases s.len(),
{
    if s.len() == 0 {
        Seq::<ArticleLinkView>::empty()
    } else {
        insert_desc(sort_desc(s.drop_last()), s.last())
    }
}

/// Every property shared by the elements of `s` and by `x` holds of every
/// element of the insertion.
proof fn lemma_insert_desc_all(
    s: Seq<ArticleLinkView>,
    x: ArticleLinkView,
    p: spec_fn(ArticleLinkView) -> bool,
)
    requires
        forall|i: int| 0 <= i < s.len() ==> p(#[trigger] s[i]),
        p(x),
    ensures
        forall|i: int| 0 <= i < insert_desc(s, x).len() ==> p(#[trigger] insert_desc(s, x)[i]),
    decreases s.len(),
{
    if s.len() > 0 && lex_leq(x.name, s[0].name) {
        assert(forall|i: int| 0 <= i < s.skip(1).len() ==> p(#[trigger] s.skip(1)[i]));
        lemma_insert_desc_all(s.skip(1), x, p);
        assert forall|i: int| 0 <= i < insert_desc(s, x).len() implies p(
            #[trigger] insert_desc(s, x)[i],
        ) by {
            if i > 0 {
                assert(insert_desc(s, x)[i] == insert_desc(s.skip(1), x)[i - 1]);
            }
        }
    }
}

/// Every property shared by the elements of `s` holds of every element of
/// the sorted sequence.
pub proof fn lemma_sort_desc_all(s: Seq<ArticleLinkView>, p: spec_fn(ArticleLinkView) -> bool)
    requires
        forall|i: int| 0 <= i < s.len() ==> p(#[trigger] s[i]),
    ensures
        forall|i: int| 0 <= i < sort_desc(s).len() ==> p(#[trigger] sort_desc(s)[i]),
    decreases s.len(),
{
    if s.len() > 0 {
        assert(forall|i: int| 0 <= i < s.drop_last().len() ==> p(#[trigger] s.drop_last()[i]));
        lemma_sort_desc_all(s.drop_last(), p);
        lemma_insert_desc_all(sort_desc(s.drop_last()), s.last(), p);
    }
}

proof fn lemma_insert_desc_sorted(s: Seq<ArticleLinkView>, x: ArticleLinkView)
    requires
        sorted_desc(s),
    ensures
        sorted_desc(insert_desc(s, x)),
    decreases s.len(),
{
    if s.len() == 0 {
    } else if lex_leq(x.name, s[0].name) {
        assert forall|i: int, j: int| 0 <= i < j < s.skip(1).len() implies lex_leq(
            s.skip(1)[j].name,
            s.skip(1)[i].name,
        ) by {
            assert(s.skip(1)[i] == s[i + 1]);
            assert(s.skip(1)[j] == s[j + 1]);
        }
        lemma_insert_desc_sorted(s.skip(1), x);
        let t = insert_desc(s.skip(1), x);
        assert forall|i: int| 0 <= i < s.skip(1).len() implies lex_leq(
            (#[trigger] s.skip(1)[i]).name,
            s[0].name,
        ) by {
            assert(s.skip(1)[i] == s[i + 1]);
        }
        lemma_insert_desc_all(s.skip(1), x, (|y: ArticleLinkView| lex_leq(y.name, s[0].name)));
        let r = insert_desc(s, x);
        assert forall|i: int, j: int| 0 <= i < j < r.len() implies lex_leq(
            r[j].name,
            r[i].name,
        ) by {
            assert(r[j] == t[j - 1]);
            if i > 0 {
                assert(r[i] == t[i - 1]);
            } else {
                assert(lex_leq(t[j - 1].name, s[0].name));
            }
        }
    } else {
        lemma_lex_leq_total(x.name, s[0].name);
        let r = insert_desc(s, x);
        assert forall|i: int, j: int| 0 <= i < j < r.len() implies lex_leq(
            r[j].name,
            r[i].name,
        ) by {
            assert(r[j] == s[j - 1]);
            if i == 0 {
                if j > 1 {
                    lemma_lex_leq_trans(s[j - 1].name, s[0].name, x.name);
                }
            } else {
                assert(r[i] == s[i - 1]);
            }
        }
    }
}

/// The spec-level sort is sorted: names never increase along its result.
pub proof fn lemma_sort_desc_sorted(s: Seq<ArticleLinkView>)
    ensures
        sorted_desc(sort_desc(s)),
    decreases s.len(),
{
    if s.len() > 0 {
        lemma_sort_desc_sorted(s.drop_last());
        lemma_insert_desc_sorted(sort_desc(s.drop_last()), s.last());
    }
}

/// Insertion loses no link: the inserted one and every link of `s` appear
/// in the result.
proof fn lemma_insert_desc_contains(s: Seq<ArticleLinkView>, x: ArticleLinkView)
    ensures
        insert_desc(s, x).contains(x),
        forall|y: ArticleLinkView| s.contains(y) ==> insert_desc(s, x).contains(y),
    decreases s.len(),
{
    let r = insert_desc(s, x);
    if s.len() == 0 {
        assert(r[0] == x);
    } else if lex_leq(x.name, s[0].name) {
        lemma_insert_desc_contains(s.skip(1), x);
        let t = insert_desc(s.skip(1), x);
        let ix = choose|ix: int| 0 <= ix < t.len() && t[ix] == x;
        assert(r[ix + 1] == x);
        assert forall|y: ArticleLinkView| s.contains(y) implies r.contains(y) by {
            let j = choose|j: int| 0 <= j < s.len() && s[j] == y;
            if j == 0 {
                assert(r[0] == y);
            } else {
                assert(s.skip(1)[j - 1] == y);
                assert(s.skip(1).contains(y));
                let k = choose|k: int| 0 <= k < t.len() && t[k] == y;
                assert(r[k + 1] == y);
            }
        }
    } else {
        assert(r[0] == x);
        assert forall|y: ArticleLinkView| s.contains(y) implies r.contains(y) by {
            let j = choose|j: int| 0 <= j < s.len() && s[j] == y;
            assert(r[j + 1] == y);
        }
    }
}

/// Sorting loses no link: every link of `s` appears in the sorted result.
pub proof fn lemma_sort_desc_contains(s: Seq<ArticleLinkView>)
    ensures
        forall|y: ArticleLinkView| s.contains(y) ==> sort_desc(s).contains(y),
    decreases s.len(),
{
    if s.len() > 0 {
        lemma_sort_desc_contains(s.drop_last());
        lemma_insert_desc_contains(sort_desc(s.drop_last()), s.last());
        assert forall|y: ArticleLinkView| s.contains(y) implies sort_desc(s).contains(y) by {
            let j = choose|j: int| 0 <= j < s.len() && s[j] == y;
            if j < s.len() - 1 {
                assert(s.drop_last()[j] == y);
                assert(s.drop_last().contains(y));
            }
        }
    }
}

/// Inserting at the first index whose element's name is below `x.name`
/// realises `insert_desc`.
proof fn lemma_insert_desc_at(s: Seq<ArticleLinkView>, x: ArticleLinkView, j: int)
    requires
        0 <= j <= s.len(),
        forall|k: int| 0 <= k < j ==> lex_leq(x.name, #[trigger] s[k].name),
        j < s.len() ==> !lex_leq(x.name, s[j].name),
    ensures
        insert_desc(s, x) == s.insert(j, x),
    decreases j,
{
    if j == 0 {
        assert(insert_desc(s, x) =~= s.insert(0, x));
    } else {
        assert(lex_leq(x.name, s[0].name));
        lemma_insert_desc_at(s.skip(1), x, j - 1);
        assert(insert_desc(s, x) =~= s.insert(j, x));
    }
}

/// Inserts `link` into `out` exactly where the spec-level insertion puts
/// it: after every link whose name is at least `link`'s.
fn insert_link_desc(out: &mut Vec<ArticleLink>, link: ArticleLink)
    ensures
        link_views(final(out)@) == insert_desc(link_views(old(out)@), link@),
{
    let mut j: usize = 0;
    while j < out.len()
        invariant
            j <= out@.len(),
            out@ == old(out)@,
            forall|k: int| 0 <= k < j ==> lex_leq(link@.name, #[trigger] out@[k]@.name),
        ensures
            out@ == old(out)@,
            j <= out@.len(),
            forall|k: int| 0 <= k < j ==> lex_leq(link@.name, #[trigger] out@[k]@.name),
            j < out@.len() ==> !lex_leq(link@.name, out@[j as int]@.name),
        decreases out@.len() - j,
    {
        if !name_leq(link.name.as_str(), out[j].name.as_str()) {
            break;
        }
        j += 1;
    }
    proof {
        assert forall|k: int| 0 <= k < j implies lex_leq(
            link@.name,
            #[trigger] link_views(out@)[k].name,
        ) by {
            assert(link_views(out@)[k] == out@[k]@);
        }
        lemma_insert_desc_at(link_views(out@), link@, j as int);
    }
    out.insert(j, link);
    proof {
        assert(link_views(out@) =~= link_views(old(out)@).insert(j as int, link@));
    }
}

/// Sorts the links descending by name; the result is exactly the stable
/// spec-level sort of the input.
pub fn sort_links_desc(links: Vec<ArticleLink>) -> (r: Vec<ArticleLink>)
    ensures
        link_views(r@) == sort_desc(link_views(links@)),
{
    let ghost orig = links@;
    let mut rest = links;
    let mut out: Vec<ArticleLink> = Vec::new();
    let ghost done: int = 0;
    while rest.len() > 0
        invariant
            0 <= done <= orig.len(),
            rest@ == orig.skip(done),
            link_views(out@) == sort_desc(link_views(orig.take(done))),
        decreases rest@.len(),
    {
        let x = rest.remove(0);
        proof {
            assert(x == orig[done]);
            assert(rest@ =~= orig.skip(done + 1));
        }
        insert_link_desc(&mut out, x);
        proof {
            let t0 = orig.take(done);
            let t1 = orig.take(done + 1);
            assert(t1.drop_last() =~= t0);
            assert(t1.last() == x);
            assert(link_views(t1).drop_last() =~= link_views(t1.drop_last()));
            assert(link_views(t1).last() == x@);
            assert(link_views(t1).len() > 0);
            assert(sort_desc(link_views(t1)) == insert_desc(
                sort_desc(link_views(t1).drop_last()),
                link_views(t1).last(),
            ));
        }
        proof {
            done = done + 1;
        }
    }
    proof {
        assert(orig.take(done) =~= orig);
    }
    out
}

} // verus!
