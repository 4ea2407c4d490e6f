//! Comment nodes and the forest that threads them.

use crate::ident::{bare_id, target_of};
use crate::json::{
    bracketed, decimal, frame_comment, frame_list, framed, json_bool, json_optional,
    json_string, number, quote,
};
use vstd::prelude::*;
use vstd::string::*;

verus! {

/// The `edited` field of a comment: `Bool(false)` for a comment that was
/// never edited, `Str` with the time of the edit otherwise.
#[derive(Debug, Eq, Hash)]
pub enum BoolOrDate {
    /// Hold a boolean type value.
    Bool(bool),
    /// Hold a string type value.
    Str(String),
}

/// What a [`BoolOrDate`] holds, as a mathematical value.
pub enum BoolOrDateView {
    Bool(bool),
    Str(Seq<char>),
}

impl View for BoolOrDate {
    type V = BoolOrDateView;

    open spec fn view(&self) -> BoolOrDateView {
        match self {
            BoolOrDate::Bool(b) => BoolOrDateView::Bool(*b),
            BoolOrDate::Str(s) => BoolOrDateView::Str(s@),
        }
    }
}

impl BoolOrDateView {
    /// A comment is either not edited, which is written `false`, or edited
    /// at a time, which is written as that time: `true` says neither.
    pub open spec fn is_wire_value(self) -> bool {
        self != BoolOrDateView::Bool(true)
    }
}

impl BoolOrDate {
    /// Whether this is a value that a comment's `edited` may have: `false`
    /// or a time.
    pub fn is_wire_value(&self) -> (ok: bool)
        ensures
            ok == self@.is_wire_value(),
    {
        match self {
            BoolOrDate::Bool(edited) => !*edited,
            BoolOrDate::Str(_) => true,
        }
    }
}

impl Clone for BoolOrDate {
    fn clone(&self) -> (copy: Self)
        ensures
            copy@ == self@,
    {
        match self {
            BoolOrDate::Bool(b) => BoolOrDate::Bool(*b),
            BoolOrDate::Str(s) => BoolOrDate::Str(s.clone()),
        }
    }
}

/// One comment with the replies that were attached to it so far.
#[derive(Debug, Eq, Hash)]
pub struct CommentNode {
    /// This comment's author.
    pub author: String,
    /// The body of the comment, as Markdown.
    pub body: String,
    /// The body of the comment, as HTML.
    pub body_html: String,
    /// The comment's created UTC timestamp.
    pub created_utc: String,
    /// Whether the comment is distinguished.
    pub distinguished: Option<String>,
    /// Whether the comment has been edited, and when.
    pub edited: BoolOrDate,
    /// The comment's ID.
    pub id: String,
    /// Whether the comment author is also the author of the submission.
    pub is_submitter: bool,
    /// The submission ID that the comment belongs to.
    pub link_id: String,
    /// The comment's parent ID, with its namespace.
    pub parent_id: String,
    /// The comment's score.
    pub score: i32,
    /// Whether the comment is stickied.
    pub stickied: bool,
    /// The comment's replies, in the order in which they arrived.
    pub replies: Vec<CommentNode>,
}

/// A comment tree as a mathematical value: the fields of a [`CommentNode`]
/// and the trees of its replies.
pub struct CommentView {
    pub author: Seq<char>,
    pub body: Seq<char>,
    pub body_html: Seq<char>,
    pub created_utc: Seq<char>,
    pub distinguished: Option<Seq<char>>,
    pub edited: BoolOrDateView,
    pub id: Seq<char>,
    pub is_submitter: bool,
    pub link_id: Seq<char>,
    pub parent_id: Seq<char>,
    pub score: i32,
    pub stickied: bool,
    pub replies: Seq<CommentView>,
}

/// Index of the first tree at or after `from` that holds a node named `id`,
/// or `trees.len()` where there is none.
pub open spec fn first_holder(trees: Seq<CommentView>, id: Seq<char>, from: int) -> int
    decreases trees.len() - from,
{
    if from < 0 || from >= trees.len() {
        trees.len() as int
    } else if trees[from].holds(id) {
        from
    } else {
        first_holder(trees, id, from + 1)
    }
}

impl CommentView {
    /// The name of the node that this comment declares as its parent: its
    /// `parent_id` without the namespace.
    pub open spec fn target(self) -> Seq<char> {
        bare_id(self.parent_id)
    }

    /// This tree with `reply` as the last reply of its top node.
    pub open spec fn with_reply(self, reply: CommentView) -> CommentView {
        CommentView { replies: self.replies.push(reply), ..self }
    }

    /// Some node of this tree is named `id`.
    pub open spec fn holds(self, id: Seq<char>) -> bool
        decreases self,
    {
        self.id == id || exists|i: int|
            0 <= i < self.replies.len() && (#[trigger] self.replies[i]).holds(id)
    }

    /// How many nodes of this tree are named `id`.
    pub open spec fn count(self, id: Seq<char>) -> nat
        decreases self,
    {
        (if self.id == id {
            1nat
        } else {
            0nat
        }) + Self::count_in(self.replies, id, self.replies.len())
    }

    /// How many nodes of the first `upto` trees of `trees` are named `id`.
    pub open spec fn count_in(trees: Seq<CommentView>, id: Seq<char>, upto: nat) -> nat
        decreases trees, upto,
    {
        if upto == 0 || upto > trees.len() {
            0
        } else {
            Self::count_in(trees, id, (upto - 1) as nat) + trees[upto - 1].count(id)
        }
    }

    /// Number of nodes of this tree, its top node included.
    pub open spec fn size(self) -> nat
        decreases self,
    {
        1 + Self::size_in(self.replies, self.replies.len())
    }

    /// Number of nodes of the first `upto` trees of `trees`.
    pub open spec fn size_in(trees: Seq<CommentView>, upto: nat) -> nat
        decreases trees, upto,
    {
        if upto == 0 || upto > trees.len() {
            0
        } else {
            Self::size_in(trees, (upto - 1) as nat) + trees[upto - 1].size()
        }
    }

    /// No two nodes of this tree bear the same name.
    pub open spec fn distinct_names(self) -> bool {
        forall|id: Seq<char>| #[trigger] self.count(id) <= 1
    }

    /// This tree with `reply` appended to the replies of the first node, in
    /// depth-first order and parents before their replies, that is named
    /// `target`. A tree that holds no such node is returned as it is.
    pub open spec fn attach(self, target: Seq<char>, reply: CommentView) -> CommentView
        decreases self,
    {
        if self.id == target {
            self.with_reply(reply)
        } else {
            let i = first_holder(self.replies, target, 0);
            if 0 <= i < self.replies.len() {
                CommentView {
                    replies: self.replies.update(i, self.replies[i].attach(target, reply)),
                    ..self
                }
            } else {
                self
            }
        }
    }

    /// Some node below the top node of this tree is named `id`.
    pub open spec fn holds_below(self, id: Seq<char>) -> bool {
        exists|i: int| 0 <= i < self.replies.len() && (#[trigger] self.replies[i]).holds(id)
    }

    /// This tree with `reply` attached under the first node below the top
    /// node that is named `target`; the top node's own name is not looked
    /// at. A tree that holds no such node is returned as it is.
    pub open spec fn attach_below(self, target: Seq<char>, reply: CommentView) -> CommentView {
        let i = first_holder(self.replies, target, 0);
        if 0 <= i < self.replies.len() {
            CommentView {
                replies: self.replies.update(i, self.replies[i].attach(target, reply)),
                ..self
            }
        } else {
            self
        }
    }

    /// The JSON object of this tree: the members of a comment in the order
    /// of the fields, `replies` last and holding the objects of the replies.
    pub open spec fn json(self) -> Seq<char>
        decreases self, 1int,
    {
        framed(
            json_string(self.author),
            json_string(self.body),
            json_string(self.body_html),
            json_string(self.created_utc),
            json_optional(
                match self.distinguished {
                    Some(d) => Some(json_string(d)),
                    None => None,
                },
            ),
            match self.edited {
                BoolOrDateView::Bool(b) => json_bool(b),
                BoolOrDateView::Str(date) => json_string(date),
            },
            json_string(self.id),
            self.is_submitter,
            json_string(self.link_id),
            json_string(self.parent_id),
            decimal(self.score as int),
            self.stickied,
            bracketed(self.reply_jsons()),
        )
    }

    /// The JSON objects of the replies of this tree's top node, in their
    /// order.
    pub open spec fn reply_jsons(self) -> Seq<Seq<char>>
        decreases self, 0int,
    {
        Seq::new(
            self.replies.len(),
            |i: int|
                if 0 <= i < self.replies.len() {
                    self.replies[i].json()
                } else {
                    Seq::empty()
                },
        )
    }

    /// The JSON array of the replies of this tree's top node.
    pub open spec fn replies_json(self) -> Seq<char> {
        bracketed(self.reply_jsons())
    }

    /// What a forest with this tree gives to read: the JSON array of the
    /// top-level comments, or the word `None` where there are none.
    pub open spec fn comments_text(self) -> Seq<char> {
        if self.replies.len() == 0 {
            "None"@
        } else {
            self.replies_json()
        }
    }

    /// Every reply in this tree names the node it hangs under as its parent.
    pub open spec fn well_parented(self) -> bool
        decreases self,
    {
        forall|i: int|
            0 <= i < self.replies.len() ==> {
                &&& (#[trigger] self.replies[i]).target() == self.id
                &&& self.replies[i].well_parented()
            }
    }
}

impl CommentNode {
    /// The tree of this node: its fields and the trees of its replies.
    pub open spec fn tree(self) -> CommentView
        decreases self,
    {
        CommentView {
            author: self.author@,
            body: self.body@,
            body_html: self.body_html@,
            created_utc: self.created_utc@,
            distinguished: match self.distinguished {
                Some(d) => Some(d@),
                None => None,
            },
            edited: self.edited@,
            id: self.id@,
            is_submitter: self.is_submitter,
            link_id: self.link_id@,
            parent_id: self.parent_id@,
            score: self.score,
            stickied: self.stickied,
            replies: Seq::new(
                self.replies@.len(),
                |i: int|
                    if 0 <= i < self.replies@.len() {
                        self.replies@[i].tree()
                    } else {
                        arbitrary()
                    },
            ),
        }
    }
}

impl View for CommentNode {
    type V = CommentView;

    open spec fn view(&self) -> CommentView {
        self.tree()
    }
}

/// The replies of a node's tree are the trees of the node's replies, one
/// for one.
pub proof fn lemma_view_replies(node: CommentNode)
    ensures
        node@.replies.len() == node.replies@.len(),
        forall|i: int| 0 <= i < node.replies@.len() ==> node@.replies[i] == node.replies@[i]@,
{
}

/// The first `i` trees hold no node named `id`, and the one at `i` does: it
/// is the first holder.
pub proof fn lemma_first_holder_at(trees: Seq<CommentView>, id: Seq<char>, from: int, i: int)
    requires
        0 <= from <= i < trees.len(),
        forall|j: int| from <= j < i ==> !trees[j].holds(id),
        trees[i].holds(id),
    ensures
        first_holder(trees, id, from) == i,
    decreases i - from,
{
    if from < i {
        lemma_first_holder_at(trees, id, from + 1, i);
    }
}

/// `first_holder` is an index of a holder, or `trees.len()` where no tree at
/// or after `from` holds the name.
pub proof fn lemma_first_holder(trees: Seq<CommentView>, id: Seq<char>, from: int)
    requires
        0 <= from,
    ensures
        0 <= first_holder(trees, id, from) <= trees.len(),
        first_holder(trees, id, from) < trees.len() ==> trees[first_holder(trees, id, from)].holds(
            id,
        ),
        forall|j: int| from <= j < first_holder(trees, id, from) ==> !trees[j].holds(id),
    decreases trees.len() - from,
{
    if from < trees.len() && !trees[from].holds(id) {
        lemma_first_holder(trees, id, from + 1);
    }
}

impl Clone for CommentNode {
    /// A copy of this node and of all that hangs under it.
    fn clone(&self) -> (copy: Self)
        ensures
            copy@ == self@,
        decreases self,
    {
        let mut replies: Vec<CommentNode> = Vec::new();
        let mut i: usize = 0;
        while i < self.replies.len()
            invariant
                i <= self.replies.len(),
                replies@.len() == i,
                forall|j: int| 0 <= j < i ==> replies@[j]@ == self.replies@[j]@,
            decreases self.replies.len() - i,
        {
            let reply = self.replies[i].clone();
            replies.push(reply);
            i = i + 1;
        }
        let distinguished = match &self.distinguished {
            Some(d) => Some(d.clone()),
            None => None,
        };
        let copy = CommentNode {
            author: self.author.clone(),
            body: self.body.clone(),
            body_html: self.body_html.clone(),
            created_utc: self.created_utc.clone(),
            distinguished,
            edited: self.edited.clone(),
            id: self.id.clone(),
            is_submitter: self.is_submitter,
            link_id: self.link_id.clone(),
            parent_id: self.parent_id.clone(),
            score: self.score,
            stickied: self.stickied,
            replies,
        };
        assert(copy@.replies =~= self@.replies);
        copy
    }
}

impl CommentNode {
    /// Get this `CommentNode`'s `replies`: a copy of each, in their order.
    pub fn replies(&self) -> (copies: Vec<CommentNode>)
        ensures
            copies@.len() == self@.replies.len(),
            forall|i: int| 0 <= i < copies@.len() ==> copies@[i]@ == self@.replies[i],
    {
        let copy = self.clone();
        copy.replies
    }

    /// The JSON object of this comment, its replies nested in it.
    pub fn to_json(&self) -> (text: String)
        ensures
            text@ == self@.json(),
        decreases self, 1int,
    {
        let distinguished = match &self.distinguished {
            Some(d) => quote(d.as_str()),
            None => String::from_str("null"),
        };
        let edited = match &self.edited {
            BoolOrDate::Bool(b) => String::from_str(crate::json::flag(*b)),
            BoolOrDate::Str(date) => quote(date.as_str()),
        };
        let replies = self.replies_json();
        frame_comment(
            quote(self.author.as_str()).as_str(),
            quote(self.body.as_str()).as_str(),
            quote(self.body_html.as_str()).as_str(),
            quote(self.created_utc.as_str()).as_str(),
            distinguished.as_str(),
            edited.as_str(),
            quote(self.id.as_str()).as_str(),
            self.is_submitter,
            quote(self.link_id.as_str()).as_str(),
            quote(self.parent_id.as_str()).as_str(),
            number(self.score).as_str(),
            self.stickied,
            replies.as_str(),
        )
    }

    /// The JSON array of this comment's replies, in their order.
    pub fn replies_json(&self) -> (text: String)
        ensures
            text@ == self@.replies_json(),
        decreases self, 0int,
    {
        let mut items: Vec<String> = Vec::new();
        let mut i: usize = 0;
        while i < self.replies.len()
            invariant
                i <= self.replies.len(),
                items@.len() == i,
                forall|j: int| 0 <= j < i ==> items@[j]@ == self.replies@[j]@.json(),
            decreases self.replies.len() - i,
        {
            let item = self.replies[i].to_json();
            items.push(item);
            i = i + 1;
        }
        assert(items@.map_values(|item: String| item@) =~= self@.reply_jsons());
        frame_list(&items)
    }

    /// Appends `reply` under the first node of this tree that is named
    /// `target`, this node itself first. Where the tree holds no such node,
    /// it stays as it was and the reply is handed back.
    pub fn attach(&mut self, target: &String, reply: CommentNode) -> (back: Option<CommentNode>)
        ensures
            old(self)@.holds(target@) ==> back is None && final(self)@ == old(self)@.attach(
                target@,
                reply@,
            ),
            !old(self)@.holds(target@) ==> back == Some(reply) && final(self)@ == old(self)@,
        decreases *old(self), 1int,
    {
        if self.id == *target {
            self.replies.push(reply);
            proof {
                lemma_view_replies(*self);
                lemma_view_replies(*old(self));
            }
            assert(self@.replies =~= old(self)@.replies.push(reply@));
            None
        } else {
            self.attach_below(target, reply)
        }
    }

    /// Searches the replies of this node, depth first, for the first node
    /// named `target` and appends `reply` under it; this node's own name is
    /// not looked at. Where no node below bears the name, the tree stays as
    /// it was and the reply is handed back.
    pub fn attach_below(&mut self, target: &String, reply: CommentNode) -> (back: Option<
        CommentNode,
    >)
        ensures
            old(self)@.holds_below(target@) ==> back is None && final(self)@ == old(
                self,
            )@.attach_below(target@, reply@),
            !old(self)@.holds_below(target@) ==> back == Some(reply) && final(self)@ == old(
                self,
            )@,
        decreases *old(self), 0int,
    {
        let ghost before = self@;
        let mut pending = reply;
        let mut i: usize = 0;
        while i < self.replies.len()
            invariant
                i <= self.replies.len(),
                self@ == before,
                before == old(self)@,
                self.replies@.len() == old(self).replies@.len(),
                forall|j: int| i <= j < self.replies@.len() ==> self.replies@[j] == old(
                    self,
                ).replies@[j],
                pending == reply,
                forall|j: int| 0 <= j < i ==> !before.replies[j].holds(target@),
            decreases self.replies.len() - i,
        {
            let ghost child = self.replies@[i as int]@;
            assert(child == before.replies[i as int]);
            match self.replies[i].attach(target, pending) {
                None => {
                    proof {
                        assert(before.replies[i as int].holds(target@));
                        lemma_first_holder_at(before.replies, target@, 0, i as int);
                        assert(self@.replies =~= before.replies.update(
                            i as int,
                            child.attach(target@, reply@),
                        ));
                    }
                    return None;
                },
                Some(returned) => {
                    pending = returned;
                    assert(self@.replies =~= before.replies);
                },
            }
            i = i + 1;
        }
        Some(pending)
    }
}

/// Why an operation on comments failed.
#[derive(Debug, PartialEq, Eq)]
pub enum TreeError {
    /// The payload does not describe a comment; holds the parser's message.
    MalformedRecord(String),
    /// No node of the forest bears the identifier that the comment names as
    /// its parent; holds that identifier.
    OrphanComment(String),
    /// A resource could not be read; holds the system's message.
    ResourceUnavailable(String),
}

impl TreeError {
    /// This error is `OrphanComment` and holds the identifier `name`.
    pub open spec fn is_orphan(self, name: Seq<char>) -> bool {
        match self {
            TreeError::OrphanComment(held) => held@ == name,
            _ => false,
        }
    }
}

/// The comment `Forest`: every comment of one submission, threaded under a
/// synthetic root that stands for the submission itself.
#[derive(Debug)]
pub struct Forest {
    /// The root of the forest.
    pub root: CommentNode,
}

/// The root that stands for the submission `id`: no payload, no replies.
pub open spec fn blank_root(id: Seq<char>) -> CommentView {
    CommentView {
        author: Seq::empty(),
        body: Seq::empty(),
        body_html: Seq::empty(),
        created_utc: Seq::empty(),
        distinguished: None,
        edited: BoolOrDateView::Bool(false),
        id: id,
        is_submitter: false,
        link_id: Seq::empty(),
        parent_id: Seq::empty(),
        score: 0,
        stickied: false,
        replies: Seq::empty(),
    }
}

impl View for Forest {
    type V = CommentView;

    open spec fn view(&self) -> CommentView {
        self.root@
    }
}

impl Forest {
    /// Create a new `Forest` for the submission `submission_id`.
    pub fn new(submission_id: String) -> (forest: Self)
        ensures
            forest@ == blank_root(submission_id@),
            forest@.well_parented(),
    {
        let root = CommentNode {
            author: String::new(),
            body: String::new(),
            body_html: String::new(),
            created_utc: String::new(),
            distinguished: None,
            edited: BoolOrDate::Bool(false),
            id: submission_id,
            is_submitter: false,
            link_id: String::new(),
            parent_id: String::new(),
            score: 0,
            stickied: false,
            replies: Vec::new(),
        };
        assert(root@.replies =~= Seq::empty());
        Forest { root }
    }

    /// The top-level comments with all their replies as a JSON array, or
    /// the word `None` while the forest holds no comment.
    pub fn comments(&self) -> (text: String)
        ensures
            text@ == self@.comments_text(),
    {
        if self.root.replies.len() == 0 {
            String::from_str("None")
        } else {
            self.root.replies_json()
        }
    }

    /// Returns a copy of the `root` of the `Forest`.
    pub fn root(&self) -> (copy: CommentNode)
        ensures
            copy@ == self@,
    {
        self.root.clone()
    }

    /// Plant a new comment in the `Forest`: it becomes the last reply of the
    /// node that its `parent_id` names, the root included. Where no node
    /// bears that name the forest stays as it was and the name is returned
    /// in `OrphanComment`.
    ///
    /// A comment that names the root goes straight under it, without a
    /// search; any other is handed to `dfs_insert`.
    ///
    /// Names are meant to be unique in a forest. Where several nodes bear
    /// the name, the root wins, and below it the first node in depth-first
    /// order.
    pub fn seed_comment(&mut self, new_comment: CommentNode) -> (outcome: Result<(), TreeError>)
        ensures
            outcome is Ok <==> old(self)@.holds(new_comment@.target()),
            final(self)@ == old(self)@.attach(new_comment@.target(), new_comment@),
            outcome matches Err(error) ==> final(self)@ == old(self)@ && error.is_orphan(
                new_comment@.target(),
            ),
            new_comment@.target() == old(self)@.id ==> outcome is Ok && final(self)@
                == old(self)@.with_reply(new_comment@),
    {
        let target = target_of(new_comment.parent_id.as_str());
        if target == self.root.id {
            self.root.replies.push(new_comment);
            proof {
                lemma_view_replies(self.root);
                lemma_view_replies(old(self).root);
            }
            assert(self@.replies =~= old(self)@.replies.push(new_comment@));
            Ok(())
        } else {
            proof {
                lemma_first_holder(self@.replies, target@, 0);
            }
            self.dfs_insert(new_comment)
        }
    }

    /// The search below the root: a depth-first walk over the comments of
    /// the forest that appends `new_comment` under the first one that its
    /// `parent_id` names. The root's own name is not looked at. The walk
    /// ends when every comment was seen; where none bears the name the
    /// forest stays as it was and the name is returned in `OrphanComment`.
    pub fn dfs_insert(&mut self, new_comment: CommentNode) -> (outcome: Result<(), TreeError>)
        ensures
            outcome is Ok <==> old(self)@.holds_below(new_comment@.target()),
            final(self)@ == old(self)@.attach_below(new_comment@.target(), new_comment@),
            outcome matches Err(error) ==> final(self)@ == old(self)@ && error.is_orphan(
                new_comment@.target(),
            ),
    {
        let target = target_of(new_comment.parent_id.as_str());
        proof {
            lemma_first_holder(self@.replies, target@, 0);
        }
        match self.root.attach_below(&target, new_comment) {
            None => Ok(()),
            Some(_) => Err(TreeError::OrphanComment(target)),
        }
    }
}

} // verus!
