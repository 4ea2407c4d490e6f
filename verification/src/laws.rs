//! What holds of every forest, whatever comments were seeded and in
//! whatever order.

use crate::comments::{blank_root, first_holder, lemma_first_holder, CommentView, Forest};
use crate::json::{bracketed, joined};
use vstd::prelude::*;
use vstd::string::*;

verus! {

/// The forest that results from seeding `comments` one after the other, the
/// first one first. A comment whose parent is not in the forest when its
/// turn comes is left out.
pub open spec fn seeded(forest: CommentView, comments: Seq<CommentView>) -> CommentView
    decreases comments.len(),
{
    if comments.len() == 0 {
        forest
    } else {
        seeded(forest, comments.drop_last()).attach(comments.last().target(), comments.last())
    }
}

/// Each comment of `comments` finds its parent in the forest when its turn
/// comes: parents arrive before their replies.
pub open spec fn parents_first(forest: CommentView, comments: Seq<CommentView>) -> bool {
    forall|k: int|
        0 <= k < comments.len() ==> seeded(forest, comments.subrange(0, k)).holds(
            (#[trigger] comments[k]).target(),
        )
}

/// Attaching a reply changes neither the name of a tree's top node nor the
/// parent that it declares.
pub proof fn lemma_attach_keeps_top(tree: CommentView, target: Seq<char>, reply: CommentView)
    ensures
        tree.attach(target, reply).id == tree.id,
        tree.attach(target, reply).parent_id == tree.parent_id,
        !tree.holds(target) ==> tree.attach(target, reply) == tree,
{
    lemma_first_holder(tree.replies, target, 0);
}

/// A tree that holds `target` somewhere below its top node holds it in one
/// of its replies, and `first_holder` names the first such reply.
pub proof fn lemma_holder_exists(tree: CommentView, target: Seq<char>)
    requires
        tree.holds(target),
        tree.id != target,
    ensures
        0 <= first_holder(tree.replies, target, 0) < tree.replies.len(),
        tree.replies[first_holder(tree.replies, target, 0)].holds(target),
{
    lemma_first_holder(tree.replies, target, 0);
    let w = choose|w: int| 0 <= w < tree.replies.len() && (#[trigger] tree.replies[w]).holds(target);
    assert(tree.replies[w].holds(target));
}

/// After a reply is attached a tree holds the names it held before and
/// those of the reply, and no others: a comment that was seeded can be
/// named as a parent from then on.
pub proof fn lemma_attach_names(
    tree: CommentView,
    target: Seq<char>,
    reply: CommentView,
    id: Seq<char>,
)
    requires
        tree.holds(target),
    ensures
        tree.attach(target, reply).holds(id) <==> (tree.holds(id) || reply.holds(id)),
    decreases tree,
{
    let after = tree.attach(target, reply);
    let n = tree.replies.len() as int;
    if tree.id == target {
        assert(after.replies[n] == reply);
        if after.holds(id) && after.id != id {
            let k = choose|k: int|
                0 <= k < after.replies.len() && (#[trigger] after.replies[k]).holds(id);
            if k < n {
                assert(tree.replies[k].holds(id));
            }
        }
        if tree.holds(id) && tree.id != id {
            let k = choose|k: int|
                0 <= k < tree.replies.len() && (#[trigger] tree.replies[k]).holds(id);
            assert(after.replies[k].holds(id));
        }
    } else {
        lemma_holder_exists(tree, target);
        let i = first_holder(tree.replies, target, 0);
        lemma_attach_names(tree.replies[i], target, reply, id);
        assert(after.replies[i] == tree.replies[i].attach(target, reply));
        if after.holds(id) && after.id != id {
            let k = choose|k: int|
                0 <= k < after.replies.len() && (#[trigger] after.replies[k]).holds(id);
            if k != i {
                assert(tree.replies[k].holds(id));
            } else if tree.replies[i].holds(id) {
                assert(tree.holds(id));
            }
        }
        if tree.holds(id) && tree.id != id {
            let k = choose|k: int|
                0 <= k < tree.replies.len() && (#[trigger] tree.replies[k]).holds(id);
            assert(after.replies[k].holds(id));
        }
        if reply.holds(id) {
            assert(after.replies[i].holds(id));
        }
    }
}

/// Attaching a comment under the node that it names as its parent keeps
/// the forest well parented: every reply still hangs directly under the
/// node whose name is the bare form of the reply's `parent_id`.
pub proof fn lemma_attach_keeps_parentage(tree: CommentView, reply: CommentView)
    requires
        tree.well_parented(),
        reply.well_parented(),
    ensures
        tree.attach(reply.target(), reply).well_parented(),
    decreases tree,
{
    let target = reply.target();
    let after = tree.attach(target, reply);
    if tree.id == target {
        assert forall|k: int| 0 <= k < after.replies.len() implies (#[trigger] after.replies[k]).target()
            == after.id && after.replies[k].well_parented() by {
            if k < tree.replies.len() {
                assert(after.replies[k] == tree.replies[k]);
            }
        }
    } else {
        lemma_first_holder(tree.replies, target, 0);
        let i = first_holder(tree.replies, target, 0);
        if 0 <= i < tree.replies.len() {
            lemma_attach_keeps_parentage(tree.replies[i], reply);
            lemma_attach_keeps_top(tree.replies[i], target, reply);
            assert forall|k: int| 0 <= k < after.replies.len() implies (
            #[trigger] after.replies[k]).target() == after.id
                && after.replies[k].well_parented() by {
                if k != i {
                    assert(after.replies[k] == tree.replies[k]);
                }
            }
        }
    }
}

/// Depth correctness: seed any comments, each without replies of its own
/// or with well-parented ones, into a well-parented forest, in any order.
/// In the forest that results every reply hangs directly under the node
/// that it names as its parent.
pub proof fn lemma_seeded_well_parented(forest: CommentView, comments: Seq<CommentView>)
    requires
        forest.well_parented(),
        forall|k: int| 0 <= k < comments.len() ==> (#[trigger] comments[k]).well_parented(),
    ensures
        seeded(forest, comments).well_parented(),
    decreases comments.len(),
{
    if comments.len() > 0 {
        let head = comments.drop_last();
        assert forall|k: int| 0 <= k < head.len() implies (#[trigger] head[k]).well_parented() by {
            assert(head[k] == comments[k]);
        }
        lemma_seeded_well_parented(forest, head);
        lemma_attach_keeps_parentage(seeded(forest, head), comments.last());
    }
}

/// Where parents arrive before their replies, every comment that was
/// seeded is in the forest afterwards: the forest holds the name of each.
pub proof fn lemma_seeded_holds_all(forest: CommentView, comments: Seq<CommentView>, k: int)
    requires
        parents_first(forest, comments),
        0 <= k < comments.len(),
    ensures
        seeded(forest, comments).holds(comments[k].id),
    decreases comments.len(),
{
    let head = comments.drop_last();
    let last = comments.last();
    assert(comments.subrange(0, comments.len() - 1) =~= head);
    assert(seeded(forest, head).holds(last.target()));
    lemma_attach_names(seeded(forest, head), last.target(), last, comments[k].id);
    if k < comments.len() - 1 {
        assert forall|j: int| 0 <= j < head.len() implies seeded(
            forest,
            head.subrange(0, j),
        ).holds((#[trigger] head[j]).target()) by {
            assert(head.subrange(0, j) =~= comments.subrange(0, j));
            assert(head[j] == comments[j]);
        }
        lemma_seeded_holds_all(forest, head, k);
        assert(head[k] == comments[k]);
    }
}

/// Counting over a list of trees that grew by one at its end: the trees
/// that were there count as before.
pub proof fn lemma_count_in_push(
    trees: Seq<CommentView>,
    last: CommentView,
    id: Seq<char>,
    upto: nat,
)
    requires
        upto <= trees.len(),
    ensures
        CommentView::count_in(trees.push(last), id, upto) == CommentView::count_in(trees, id, upto),
    decreases upto,
{
    if upto > 0 {
        lemma_count_in_push(trees, last, id, (upto - 1) as nat);
        assert(trees.push(last)[upto - 1] == trees[upto - 1]);
    }
}

/// Counting over a list of trees of which the one at `i` was replaced: the
/// count changes by what the new tree holds more than the old one.
pub proof fn lemma_count_in_update(
    trees: Seq<CommentView>,
    i: int,
    tree: CommentView,
    id: Seq<char>,
    upto: nat,
)
    requires
        0 <= i < trees.len(),
        upto <= trees.len(),
    ensures
        CommentView::count_in(trees.update(i, tree), id, upto) + (if i < upto {
            trees[i].count(id)
        } else {
            0nat
        }) == CommentView::count_in(trees, id, upto) + (if i < upto {
            tree.count(id)
        } else {
            0nat
        }),
    decreases upto,
{
    if upto > 0 {
        lemma_count_in_update(trees, i, tree, id, (upto - 1) as nat);
        if i != upto - 1 {
            assert(trees.update(i, tree)[upto - 1] == trees[upto - 1]);
        }
    }
}

/// A tree holds a name exactly when it counts at least one node of that
/// name.
pub proof fn lemma_holds_is_counted(tree: CommentView, id: Seq<char>)
    ensures
        tree.holds(id) <==> tree.count(id) > 0,
    decreases tree, 1int,
{
    lemma_held_in_is_counted(tree, id, tree.replies.len());
    if tree.id != id && tree.holds(id) {
        let k = choose|k: int| 0 <= k < tree.replies.len() && (#[trigger] tree.replies[k]).holds(id);
        assert(tree.replies[k].holds(id));
    }
}

/// Some reply among the first `upto` of `tree` holds `id` exactly when the
/// count of `id` over them is not zero.
pub proof fn lemma_held_in_is_counted(tree: CommentView, id: Seq<char>, upto: nat)
    requires
        upto <= tree.replies.len(),
    ensures
        CommentView::count_in(tree.replies, id, upto) > 0 <==> exists|k: int|
            0 <= k < upto && (#[trigger] tree.replies[k]).holds(id),
    decreases tree, 0int, upto,
{
    if upto > 0 {
        lemma_held_in_is_counted(tree, id, (upto - 1) as nat);
        lemma_holds_is_counted(tree.replies[upto - 1], id);
        if CommentView::count_in(tree.replies, id, upto) > 0 {
            if tree.replies[upto - 1].count(id) > 0 {
                assert(tree.replies[upto - 1].holds(id));
            } else {
                let k = choose|k: int|
                    0 <= k < upto - 1 && (#[trigger] tree.replies[k]).holds(id);
                assert(0 <= k < upto && tree.replies[k].holds(id));
            }
        }
        if exists|k: int| 0 <= k < upto && (#[trigger] tree.replies[k]).holds(id) {
            let k = choose|k: int| 0 <= k < upto && (#[trigger] tree.replies[k]).holds(id);
            if k < upto - 1 {
                assert(0 <= k < upto - 1 && tree.replies[k].holds(id));
            }
        }
    }
}

/// One attachment adds the nodes of the reply and touches no other: for
/// every name, the forest counts afterwards what it counted before and what
/// the reply counts.
pub proof fn lemma_attach_counts(
    tree: CommentView,
    target: Seq<char>,
    reply: CommentView,
    id: Seq<char>,
)
    requires
        tree.holds(target),
    ensures
        tree.attach(target, reply).count(id) == tree.count(id) + reply.count(id),
    decreases tree,
{
    let after = tree.attach(target, reply);
    if tree.id == target {
        lemma_count_in_push(tree.replies, reply, id, tree.replies.len());
        assert(after.replies[tree.replies.len() as int] == reply);
    } else {
        lemma_holder_exists(tree, target);
        let i = first_holder(tree.replies, target, 0);
        lemma_attach_counts(tree.replies[i], target, reply, id);
        lemma_count_in_update(
            tree.replies,
            i,
            tree.replies[i].attach(target, reply),
            id,
            tree.replies.len(),
        );
    }
}

/// Names stay unique: where no two nodes of the forest share a name, nor
/// two of the comment, and the comment brings no name that the forest
/// holds, no two nodes share a name after the comment was attached.
pub proof fn lemma_attach_keeps_names_distinct(
    tree: CommentView,
    target: Seq<char>,
    reply: CommentView,
)
    requires
        tree.holds(target),
        tree.distinct_names(),
        reply.distinct_names(),
        forall|id: Seq<char>| !(#[trigger] tree.holds(id) && reply.holds(id)),
    ensures
        tree.attach(target, reply).distinct_names(),
{
    let after = tree.attach(target, reply);
    assert forall|id: Seq<char>| #[trigger] after.count(id) <= 1 by {
        lemma_attach_counts(tree, target, reply, id);
        lemma_holds_is_counted(tree, id);
        lemma_holds_is_counted(reply, id);
        assert(tree.count(id) <= 1);
        assert(reply.count(id) <= 1);
        assert(!(tree.holds(id) && reply.holds(id)));
    }
}

/// An orphan changes nothing: attaching under a name that the forest does
/// not hold gives the forest back, and with it the same text to read.
pub proof fn lemma_orphan_changes_nothing(forest: CommentView, orphan: CommentView)
    requires
        !forest.holds(orphan.target()),
    ensures
        forest.attach(orphan.target(), orphan) == forest,
        forest.attach(orphan.target(), orphan).comments_text() == forest.comments_text(),
{
    lemma_attach_keeps_top(forest, orphan.target(), orphan);
}

/// Root fast path: a comment that names the root as its parent becomes the
/// last top-level comment, whatever the forest holds below.
pub proof fn lemma_root_fast_path(forest: CommentView, reply: CommentView)
    requires
        reply.target() == forest.id,
    ensures
        forest.holds(reply.target()),
        forest.attach(reply.target(), reply) == forest.with_reply(reply),
        forest.attach(reply.target(), reply).replies.last() == reply,
{
}

/// Reading is stable: what a forest gives to read depends on its tree
/// alone, so two forests with the same tree, or one forest read twice, give
/// the same text.
pub proof fn lemma_read_is_stable(first: Forest, second: Forest)
    requires
        first@ == second@,
    ensures
        first@.comments_text() == second@.comments_text(),
{
}

/// Sizes over a list of trees that grew by one at its end: the trees that
/// were there weigh as before.
pub proof fn lemma_size_in_push(trees: Seq<CommentView>, last: CommentView, upto: nat)
    requires
        upto <= trees.len(),
    ensures
        CommentView::size_in(trees.push(last), upto) == CommentView::size_in(trees, upto),
    decreases upto,
{
    if upto > 0 {
        lemma_size_in_push(trees, last, (upto - 1) as nat);
        assert(trees.push(last)[upto - 1] == trees[upto - 1]);
    }
}

/// Sizes over a list of trees of which the one at `i` was replaced: the sum
/// changes by what the new tree weighs more than the old one.
pub proof fn lemma_size_in_update(trees: Seq<CommentView>, i: int, tree: CommentView, upto: nat)
    requires
        0 <= i < trees.len(),
        upto <= trees.len(),
    ensures
        CommentView::size_in(trees.update(i, tree), upto) + (if i < upto {
            trees[i].size()
        } else {
            0nat
        }) == CommentView::size_in(trees, upto) + (if i < upto {
            tree.size()
        } else {
            0nat
        }),
    decreases upto,
{
    if upto > 0 {
        lemma_size_in_update(trees, i, tree, (upto - 1) as nat);
        if i != upto - 1 {
            assert(trees.update(i, tree)[upto - 1] == trees[upto - 1]);
        }
    }
}

/// One attachment makes the forest larger by the nodes of the reply.
pub proof fn lemma_attach_size(tree: CommentView, target: Seq<char>, reply: CommentView)
    requires
        tree.holds(target),
    ensures
        tree.attach(target, reply).size() == tree.size() + reply.size(),
    decreases tree,
{
    let after = tree.attach(target, reply);
    if tree.id == target {
        lemma_size_in_push(tree.replies, reply, tree.replies.len());
        assert(after.replies[tree.replies.len() as int] == reply);
    } else {
        lemma_holder_exists(tree, target);
        let i = first_holder(tree.replies, target, 0);
        lemma_attach_size(tree.replies[i], target, reply);
        lemma_size_in_update(
            tree.replies,
            i,
            tree.replies[i].attach(target, reply),
            tree.replies.len(),
        );
    }
}

/// One call keeps what a forest is: seed a comment that brings no replies
/// and a name that the forest does not hold into a forest whose names are
/// unique and whose replies hang under their parents. Whether its parent
/// is found or not, names are unique afterwards, replies hang under their
/// parents, the root keeps its name, and every node that was there is
/// there still.
pub proof fn lemma_seed_keeps_the_forest(forest: CommentView, comment: CommentView)
    requires
        forest.distinct_names(),
        forest.well_parented(),
        !forest.holds(comment.id),
        comment.replies.len() == 0,
    ensures
        forest.attach(comment.target(), comment).distinct_names(),
        forest.attach(comment.target(), comment).well_parented(),
        forest.attach(comment.target(), comment).id == forest.id,
        forall|id: Seq<char>|
            forest.attach(comment.target(), comment).count(id) >= #[trigger] forest.count(id),
        forall|id: Seq<char>|
            #[trigger] forest.holds(id) ==> forest.attach(comment.target(), comment).holds(id),
        !forest.holds(comment.target()) ==> forest.attach(comment.target(), comment) == forest,
{
    let target = comment.target();
    let after = forest.attach(target, comment);
    lemma_attach_keeps_top(forest, target, comment);
    lemma_attach_keeps_parentage(forest, comment);
    if forest.holds(target) {
        assert forall|id: Seq<char>| #[trigger] after.count(id) <= 1 && after.count(id)
            >= forest.count(id) by {
            lemma_attach_counts(forest, target, comment, id);
            lemma_holds_is_counted(forest, id);
            assert(forest.count(id) <= 1);
            assert(forest.count(comment.id) == 0) by {
                lemma_holds_is_counted(forest, comment.id);
            }
        }
        assert forall|id: Seq<char>| #[trigger] forest.holds(id) implies after.holds(id) by {
            lemma_attach_names(forest, target, comment, id);
        }
        assert forall|id: Seq<char>| after.count(id) >= #[trigger] forest.count(id) by {
            assert(after.count(id) <= 1);
        }
    }
}

/// Some comment of `comments` is named `id`.
pub open spec fn named_in(comments: Seq<CommentView>, id: Seq<char>) -> bool {
    exists|j: int| 0 <= j < comments.len() && (#[trigger] comments[j]).id == id
}

/// A stream of comments for the submission `root_id` that arrives in
/// order: no comment brings replies, no two share a name, none bears the
/// submission's name, and each names as its parent the submission or a
/// comment that came before it.
pub open spec fn arrives_in_order(root_id: Seq<char>, comments: Seq<CommentView>) -> bool {
    &&& forall|i: int| 0 <= i < comments.len() ==> (#[trigger] comments[i]).replies.len() == 0
    &&& forall|i: int| 0 <= i < comments.len() ==> (#[trigger] comments[i]).id != root_id
    &&& forall|i: int, j: int|
        0 <= i < j < comments.len() ==> (#[trigger] comments[i]).id != (#[trigger] comments[j]).id
    &&& forall|i: int|
        0 <= i < comments.len() ==> (#[trigger] comments[i]).target() == root_id || named_in(
            comments.subrange(0, i),
            comments[i].target(),
        )
}

/// Depth correctness over a whole stream: seed the comments of a stream
/// that arrives in order into a fresh forest. Every comment finds its
/// parent; the forest then has one node for the root and one for each
/// comment, each name once and no other name; and every comment hangs
/// directly under the node that it names as its parent, one level below it.
pub proof fn lemma_stream_builds_the_tree(root_id: Seq<char>, comments: Seq<CommentView>)
    requires
        arrives_in_order(root_id, comments),
    ensures
        parents_first(blank_root(root_id), comments),
        seeded(blank_root(root_id), comments).id == root_id,
        seeded(blank_root(root_id), comments).well_parented(),
        seeded(blank_root(root_id), comments).distinct_names(),
        seeded(blank_root(root_id), comments).size() == comments.len() + 1,
        forall|id: Seq<char>|
            #[trigger] seeded(blank_root(root_id), comments).count(id) == (if id == root_id
                || named_in(comments, id) {
                1nat
            } else {
                0nat
            }),
    decreases comments.len(),
{
    let fresh = blank_root(root_id);
    let forest = seeded(fresh, comments);
    if comments.len() == 0 {
        assert forall|id: Seq<char>| #[trigger] forest.count(id) == (if id == root_id {
            1nat
        } else {
            0nat
        }) by {}
    } else {
        let head = comments.drop_last();
        let last = comments.last();
        let n = head.len() as int;
        assert(comments.subrange(0, n) =~= head);
        assert(arrives_in_order(root_id, head)) by {
            assert forall|i: int| 0 <= i < head.len() implies (#[trigger] head[i]).target()
                == root_id || named_in(head.subrange(0, i), head[i].target()) by {
                assert(head[i] == comments[i]);
                assert(head.subrange(0, i) =~= comments.subrange(0, i));
            }
            assert forall|i: int| 0 <= i < head.len() implies (#[trigger] head[i]).replies.len()
                == 0 && head[i].id != root_id by {
                assert(head[i] == comments[i]);
            }
            assert forall|i: int, j: int| 0 <= i < j < head.len() implies (#[trigger] head[i]).id
                != (#[trigger] head[j]).id by {
                assert(head[i] == comments[i]);
                assert(head[j] == comments[j]);
            }
        }
        lemma_stream_builds_the_tree(root_id, head);
        let before = seeded(fresh, head);
        let target = last.target();
        assert(comments[n] == last);
        assert(before.count(target) == 1);
        lemma_holds_is_counted(before, target);
        assert(!named_in(head, last.id)) by {
            if named_in(head, last.id) {
                let j = choose|j: int| 0 <= j < head.len() && (#[trigger] head[j]).id == last.id;
                assert(comments[j] == head[j]);
            }
        }
        lemma_attach_keeps_top(before, target, last);
        lemma_attach_keeps_parentage(before, last);
        lemma_attach_size(before, target, last);
        assert forall|id: Seq<char>| #[trigger] forest.count(id) == (if id == root_id || named_in(
            comments,
            id,
        ) {
            1nat
        } else {
            0nat
        }) by {
            lemma_attach_counts(before, target, last, id);
            if named_in(head, id) {
                let j = choose|j: int| 0 <= j < head.len() && (#[trigger] head[j]).id == id;
                assert(comments[j].id == id);
            }
            if id == last.id {
                assert(comments[n].id == id);
            }
            if named_in(comments, id) && id != last.id {
                let j = choose|j: int| 0 <= j < comments.len() && (#[trigger] comments[j]).id == id;
                assert(head[j].id == id);
            }
        }
        assert forall|k: int| 0 <= k < comments.len() implies seeded(
            fresh,
            comments.subrange(0, k),
        ).holds((#[trigger] comments[k]).target()) by {
            if k < n {
                assert(head.subrange(0, k) =~= comments.subrange(0, k));
                assert(head[k] == comments[k]);
            }
        }
    }
}

/// Joining a list that grew by one at its end: what was joined before is
/// joined as before.
pub proof fn lemma_joined_push(items: Seq<Seq<char>>, last: Seq<char>, upto: nat)
    requires
        upto <= items.len(),
    ensures
        joined(items.push(last), upto) == joined(items, upto),
    decreases upto,
{
    if upto > 1 {
        lemma_joined_push(items, last, (upto - 1) as nat);
        assert(items.push(last)[upto - 1] == items[upto - 1]);
    } else if upto == 1 {
        assert(items.push(last)[0] == items[0]);
    }
}

/// Joining a list of which the text at `i` was replaced: the length
/// changes by what the new text is longer than the old one.
pub proof fn lemma_joined_update(items: Seq<Seq<char>>, i: int, text: Seq<char>, upto: nat)
    requires
        0 <= i < items.len(),
        upto <= items.len(),
    ensures
        joined(items.update(i, text), upto).len() + (if i < upto {
            items[i].len()
        } else {
            0nat
        }) == joined(items, upto).len() + (if i < upto {
            text.len()
        } else {
            0nat
        }),
    decreases upto,
{
    if upto > 1 {
        lemma_joined_update(items, i, text, (upto - 1) as nat);
        if i != upto - 1 {
            assert(items.update(i, text)[upto - 1] == items[upto - 1]);
        }
    } else if upto == 1 {
        if i != 0 {
            assert(items.update(i, text)[0] == items[0]);
        }
    }
}

/// The JSON object of a comment is never empty.
pub proof fn lemma_json_not_empty(tree: CommentView)
    ensures
        tree.json().len() >= 2,
{
}

/// The JSON text of a tree is as long as its members without the replies
/// and the list of its replies: with other replies in place of its own,
/// the text of the tree changes in length as the text of the list does.
pub proof fn lemma_json_length_by_replies(tree: CommentView, replies: Seq<CommentView>)
    ensures
        (CommentView { replies: replies, ..tree }).json().len() + tree.replies_json().len()
            == tree.json().len() + (CommentView { replies: replies, ..tree }).replies_json().len(),
{
}

/// Appending a reply makes the JSON list of the replies longer.
pub proof fn lemma_reply_lengthens(tree: CommentView, reply: CommentView)
    ensures
        tree.with_reply(reply).replies_json().len() > tree.replies_json().len(),
{
    let after = tree.with_reply(reply);
    let n = tree.replies.len();
    lemma_json_not_empty(reply);
    assert(after.replies[n as int] == reply);
    assert(after.reply_jsons() =~= tree.reply_jsons().push(reply.json()));
    lemma_joined_push(tree.reply_jsons(), reply.json(), n);
    assert(joined(after.reply_jsons(), n + 1).len() > joined(tree.reply_jsons(), n).len());
}

/// Replacing the reply at `i` by a tree with a longer JSON text makes the
/// JSON list of the replies longer.
pub proof fn lemma_longer_reply_lengthens(tree: CommentView, i: int, grown: CommentView)
    requires
        0 <= i < tree.replies.len(),
        grown.json().len() > tree.replies[i].json().len(),
    ensures
        (CommentView { replies: tree.replies.update(i, grown), ..tree }).replies_json().len()
            > tree.replies_json().len(),
{
    let after = CommentView { replies: tree.replies.update(i, grown), ..tree };
    assert(after.reply_jsons() =~= tree.reply_jsons().update(i, grown.json()));
    lemma_joined_update(tree.reply_jsons(), i, grown.json(), tree.replies.len());
}

/// One attachment makes the JSON text longer: that of the tree, and that
/// of the list of its replies.
pub proof fn lemma_attach_lengthens(tree: CommentView, target: Seq<char>, reply: CommentView)
    requires
        tree.holds(target),
    ensures
        tree.attach(target, reply).json().len() > tree.json().len(),
        tree.attach(target, reply).replies_json().len() > tree.replies_json().len(),
        tree.attach(target, reply).replies.len() > 0,
    decreases tree,
{
    let after = tree.attach(target, reply);
    if tree.id == target {
        lemma_reply_lengthens(tree, reply);
    } else {
        lemma_holder_exists(tree, target);
        let i = first_holder(tree.replies, target, 0);
        let grown = tree.replies[i].attach(target, reply);
        lemma_attach_lengthens(tree.replies[i], target, reply);
        lemma_longer_reply_lengthens(tree, i, grown);
    }
    lemma_json_length_by_replies(tree, after.replies);
    assert(after == CommentView { replies: after.replies, ..tree });
}

/// A seed that finds its parent shows: the text that the forest gives to
/// read afterwards differs from the text before. So equal texts before and
/// after a call mean that the forest did not change.
pub proof fn lemma_seed_changes_the_text(forest: CommentView, comment: CommentView)
    requires
        forest.holds(comment.target()),
    ensures
        forest.attach(comment.target(), comment).comments_text() != forest.comments_text(),
{
    let after = forest.attach(comment.target(), comment);
    lemma_attach_lengthens(forest, comment.target(), comment);
    if forest.replies.len() == 0 {
        reveal_strlit("None");
        reveal_strlit("[");
        assert(after.comments_text()[0] == '[');
        assert(forest.comments_text()[0] == 'N');
    }
}

} // verus!
