//! The bookkeeping of a crawl: which items wait to be visited, how much work
//! is outstanding, and when the crawl is over. A crawl of a tree held in
//! memory shows that the bookkeeping visits every file exactly once.

use std::collections::VecDeque;
use vstd::multiset::Multiset;
use vstd::prelude::*;

verus! {

/// The work of a crawl that several workers share. Items wait in a queue; an
/// item that a worker has taken is in flight until the worker reports it
/// done. The count of pending items covers both, so that an empty queue
/// alone never ends the crawl: it ends when the count comes down to zero.
#[derive(Debug)]
pub struct Crawler<T> {
    queue: VecDeque<T>,
    pending: usize,
    in_flight: usize,
    closed: bool,
}

impl<T> Crawler<T> {
    /// The items that wait to be visited, the next one first.
    pub closed spec fn queue(&self) -> Seq<T> {
        self.queue@
    }

    /// The count of items not yet done: waiting or in flight.
    pub closed spec fn pending(&self) -> nat {
        self.pending as nat
    }

    /// The count of items taken by a worker and not yet reported done.
    pub closed spec fn in_flight(&self) -> nat {
        self.in_flight as nat
    }

    /// Whether the crawl is over.
    pub closed spec fn closed(&self) -> bool {
        self.closed
    }

    /// The invariant of the crawl: every pending item waits or is in flight,
    /// and the crawl is over exactly when none is pending.
    pub open spec fn wf(&self) -> bool {
        &&& self.pending() == self.queue().len() + self.in_flight()
        &&& self.closed() == (self.pending() == 0)
    }

    /// A crawl with the root as its one pending item.
    pub fn new(root: T) -> (crawler: Self)
        ensures
            crawler.wf(),
            crawler.queue() == seq![root],
            crawler.pending() == 1,
            crawler.in_flight() == 0,
            !crawler.closed(),
    {
        let mut queue: VecDeque<T> = VecDeque::new();
        queue.push_back(root);
        assert(queue@ =~= seq![root]);
        Crawler { queue, pending: 1, in_flight: 0, closed: false }
    }

    /// Whether the crawl is over: no item waits and none is in flight.
    pub fn is_closed(&self) -> (closed: bool)
        requires
            self.wf(),
        ensures
            closed == self.closed(),
            closed == (self.queue().len() == 0 && self.in_flight() == 0),
    {
        self.closed
    }

    /// The count of items not yet done.
    pub fn pending_count(&self) -> (pending: usize)
        ensures
            pending == self.pending(),
    {
        self.pending
    }

    /// Takes the next waiting item, which is then in flight. `None` where
    /// the queue is empty: the crawl is then over, or an item in flight may
    /// still add to the queue, and the worker has to wait.
    pub fn take(&mut self) -> (item: Option<T>)
        requires
            old(self).wf(),
        ensures
            final(self).wf(),
            final(self).pending() == old(self).pending(),
            final(self).closed() == old(self).closed(),
            item is Some == (old(self).queue().len() > 0),
            item matches Some(taken) ==> {
                &&& taken == old(self).queue()[0]
                &&& final(self).queue() == old(self).queue().drop_first()
                &&& final(self).in_flight() == old(self).in_flight() + 1
            },
            item is None ==> {
                &&& final(self).queue() == old(self).queue()
                &&& final(self).in_flight() == old(self).in_flight()
                &&& (final(self).closed() || final(self).in_flight() > 0)
            },
    {
        let item = self.queue.pop_front();
        if item.is_some() {
            self.in_flight += 1;
        }
        item
    }

    /// Reports a directory in flight as read: its children join the queue,
    /// counted as pending before they do, and the directory is done. Says
    /// whether this ended the crawl.
    pub fn finish_directory(&mut self, children: Vec<T>) -> (done: bool)
        requires
            old(self).wf(),
            old(self).in_flight() > 0,
            old(self).pending() + children@.len() <= usize::MAX,
        ensures
            final(self).wf(),
            final(self).queue() == old(self).queue() + children@,
            final(self).in_flight() == old(self).in_flight() - 1,
            final(self).pending() == old(self).pending() + children@.len() - 1,
            done == final(self).closed(),
    {
        let ghost waiting = self.queue@;
        self.pending += children.len();
        for child in iter: children
            invariant
                self.queue@ == waiting + iter.seq().subrange(0, iter.index() as int),
                self.pending == old(self).pending + iter.seq().len(),
                self.in_flight == old(self).in_flight,
                iter.seq() == children@,
        {
            self.queue.push_back(child);
            assert(self.queue@ =~= waiting + iter.seq().subrange(0, iter.index() + 1));
        }
        assert(self.queue@ =~= waiting + children@);
        self.pending -= 1;
        self.in_flight -= 1;
        self.closed = self.pending == 0;
        self.closed
    }

    /// Reports an item in flight as done that adds nothing to the queue: a
    /// file that was searched, or a directory that could not be read. Says
    /// whether this ended the crawl.
    pub fn finish_item(&mut self) -> (done: bool)
        requires
            old(self).wf(),
            old(self).in_flight() > 0,
        ensures
            final(self).wf(),
            final(self).queue() == old(self).queue(),
            final(self).in_flight() == old(self).in_flight() - 1,
            final(self).pending() == old(self).pending() - 1,
            done == final(self).closed(),
    {
        self.pending -= 1;
        self.in_flight -= 1;
        self.closed = self.pending == 0;
        self.closed
    }
}

/// A file held in memory.
#[derive(Debug, Clone, PartialEq, Eq)]
pub struct MemoryFile {
    /// The path of the file.
    pub path: String,
    /// What the file holds.
    pub bytes: Vec<u8>,
}

/// A directory tree held in memory.
#[derive(Debug)]
pub enum TreeNode {
    /// A file.
    File(MemoryFile),
    /// A directory that can be read, with what it holds.
    Directory(Vec<TreeNode>),
    /// A directory that cannot be read.
    Unreadable,
}

/// The files that can be reached from `node`, each as often as it occurs.
pub open spec fn files_of(node: TreeNode) -> Multiset<MemoryFile>
    decreases node, 0nat,
{
    match node {
        TreeNode::File(file) => Multiset::singleton(file),
        TreeNode::Directory(children) => files_in(children@),
        TreeNode::Unreadable => Multiset::empty(),
    }
}

/// The files that can be reached from any of `nodes`.
pub open spec fn files_in(nodes: Seq<TreeNode>) -> Multiset<MemoryFile>
    decreases nodes, 1nat,
{
    if nodes.len() == 0 {
        Multiset::empty()
    } else {
        files_in(nodes.drop_last()).add(files_of(nodes.last()))
    }
}

/// The count of files and directories in the tree below and including
/// `node`, as far as they can be reached.
pub open spec fn node_count(node: TreeNode) -> nat
    decreases node, 0nat,
{
    match node {
        TreeNode::Directory(children) => 1 + nodes_count(children@),
        _ => 1,
    }
}

/// The count of files and directories in the trees of `nodes`.
pub open spec fn nodes_count(nodes: Seq<TreeNode>) -> nat
    decreases nodes, 1nat,
{
    if nodes.len() == 0 {
        0
    } else {
        nodes_count(nodes.drop_last()) + node_count(nodes.last())
    }
}

/// The summed length of the files that can be reached from `node`.
pub open spec fn tree_bytes(node: TreeNode) -> nat
    decreases node, 0nat,
{
    match node {
        TreeNode::File(file) => file.bytes@.len(),
        TreeNode::Directory(children) => trees_bytes(children@),
        TreeNode::Unreadable => 0,
    }
}

/// The summed length of the files that can be reached from any of `nodes`.
pub open spec fn trees_bytes(nodes: Seq<TreeNode>) -> nat
    decreases nodes, 1nat,
{
    if nodes.len() == 0 {
        0
    } else {
        trees_bytes(nodes.drop_last()) + tree_bytes(nodes.last())
    }
}

/// The count of a prefix is the count of a shorter prefix and of the node
/// between them, and no prefix counts more than the whole.
proof fn lemma_nodes_count_prefix(nodes: Seq<TreeNode>, i: int)
    requires
        0 <= i < nodes.len(),
    ensures
        nodes_count(nodes.subrange(0, i + 1)) == nodes_count(nodes.subrange(0, i)) + node_count(
            nodes[i],
        ),
        nodes_count(nodes.subrange(0, i + 1)) <= nodes_count(nodes),
    decreases nodes.len() - i,
{
    let longer = nodes.subrange(0, i + 1);
    assert(longer.drop_last() =~= nodes.subrange(0, i));
    assert(longer.last() == nodes[i]);
    if i + 1 < nodes.len() {
        lemma_nodes_count_prefix(nodes, i + 1);
    } else {
        assert(longer =~= nodes);
    }
}

impl TreeNode {
    /// The count of files and directories in the tree, as far as they can be
    /// reached, where it fits its type; `None` where it does not.
    pub fn count(&self) -> (count: Option<usize>)
        ensures
            count is Some == (node_count(*self) <= usize::MAX),
            count matches Some(n) ==> n == node_count(*self),
        decreases self,
    {
        match self {
            TreeNode::Directory(children) => {
                let mut total: usize = 1;
                let mut i: usize = 0;
                assert(children@.subrange(0, 0) =~= Seq::<TreeNode>::empty());
                while i < children.len()
                    invariant
                        i <= children@.len(),
                        *self == TreeNode::Directory(*children),
                        total == 1 + nodes_count(children@.subrange(0, i as int)),
                    decreases children@.len() - i,
                {
                    proof {
                        lemma_nodes_count_prefix(children@, i as int);
                        assert(self->Directory_0 == *children);
                        assert(decreases_to!(*self => self->Directory_0));
                        assert(decreases_to!(*children => children[i as int]));
                    }
                    match children[i].count() {
                        None => {
                            return None;
                        },
                        Some(n) => {
                            if total > usize::MAX - n {
                                return None;
                            }
                            total += n;
                        },
                    }
                    i += 1;
                }
                assert(children@.subrange(0, i as int) =~= children@);
                Some(total)
            },
            _ => Some(1),
        }
    }
}

/// The files that can be reached from the nodes that wait in a queue.
pub open spec fn waiting_files(queue: Seq<&TreeNode>) -> Multiset<MemoryFile>
    decreases queue.len(),
{
    if queue.len() == 0 {
        Multiset::empty()
    } else {
        waiting_files(queue.drop_last()).add(files_of(*queue.last()))
    }
}

/// The count of files and directories that a queue of nodes stands for.
pub open spec fn waiting_count(queue: Seq<&TreeNode>) -> nat
    decreases queue.len(),
{
    if queue.len() == 0 {
        0
    } else {
        waiting_count(queue.drop_last()) + node_count(*queue.last())
    }
}

/// The summed length of the files that a queue of nodes stands for.
pub open spec fn waiting_bytes(queue: Seq<&TreeNode>) -> nat
    decreases queue.len(),
{
    if queue.len() == 0 {
        0
    } else {
        waiting_bytes(queue.drop_last()) + tree_bytes(*queue.last())
    }
}

/// The summed length of the files found.
pub open spec fn found_bytes(found: Seq<&MemoryFile>) -> nat
    decreases found.len(),
{
    if found.len() == 0 {
        0
    } else {
        found_bytes(found.drop_last()) + found.last().bytes@.len()
    }
}

/// The files as a bag: each as often as it occurs among `found`.
pub open spec fn files_found(found: Seq<&MemoryFile>) -> Multiset<MemoryFile>
    decreases found.len(),
{
    if found.len() == 0 {
        Multiset::empty()
    } else {
        files_found(found.drop_last()).insert(*found.last())
    }
}

proof fn lemma_waiting_concat(a: Seq<&TreeNode>, b: Seq<&TreeNode>)
    ensures
        waiting_files(a + b) == waiting_files(a).add(waiting_files(b)),
        waiting_count(a + b) == waiting_count(a) + waiting_count(b),
        waiting_bytes(a + b) == waiting_bytes(a) + waiting_bytes(b),
    decreases b.len(),
{
    if b.len() == 0 {
        assert(a + b =~= a);
        assert(waiting_files(a).add(waiting_files(b)) =~= waiting_files(a));
    } else {
        assert((a + b).drop_last() =~= a + b.drop_last());
        assert((a + b).last() == b.last());
        lemma_waiting_concat(a, b.drop_last());
        assert(waiting_files(a + b) =~= waiting_files(a).add(waiting_files(b)));
    }
}

proof fn lemma_waiting_first(queue: Seq<&TreeNode>)
    requires
        queue.len() > 0,
    ensures
        waiting_files(queue) == files_of(*queue[0]).add(waiting_files(queue.drop_first())),
        waiting_count(queue) == node_count(*queue[0]) + waiting_count(queue.drop_first()),
        waiting_bytes(queue) == tree_bytes(*queue[0]) + waiting_bytes(queue.drop_first()),
{
    let head = seq![queue[0]];
    assert(queue =~= head + queue.drop_first());
    lemma_waiting_concat(head, queue.drop_first());
    assert(head.drop_last().len() == 0);
    assert(waiting_files(head.drop_last()) == Multiset::<MemoryFile>::empty());
    assert(waiting_count(head.drop_last()) == 0);
    assert(waiting_bytes(head.drop_last()) == 0);
    assert(head.last() == queue[0]);
    assert(waiting_files(head) =~= files_of(*queue[0]));
    assert(waiting_count(head) == node_count(*queue[0]));
    assert(waiting_bytes(head) == tree_bytes(*queue[0]));
}

proof fn lemma_waiting_children(refs: Seq<&TreeNode>, children: Seq<TreeNode>)
    requires
        refs.len() == children.len(),
        forall|i: int| 0 <= i < refs.len() ==> *refs[i] == children[i],
    ensures
        waiting_files(refs) == files_in(children),
        waiting_count(refs) == nodes_count(children),
        waiting_bytes(refs) == trees_bytes(children),
        refs.len() <= waiting_count(refs),
    decreases refs.len(),
{
    if refs.len() > 0 {
        lemma_waiting_children(refs.drop_last(), children.drop_last());
        lemma_node_count_positive(children.last());
    }
}

proof fn lemma_node_count_positive(node: TreeNode)
    ensures
        node_count(node) >= 1,
{
}

proof fn lemma_waiting_count_covers_len(queue: Seq<&TreeNode>)
    ensures
        queue.len() <= waiting_count(queue),
    decreases queue.len(),
{
    if queue.len() > 0 {
        lemma_waiting_count_covers_len(queue.drop_last());
        lemma_node_count_positive(*queue.last());
    }
}

/// The children of a directory as they join the queue, in their order.
pub open spec fn child_refs<'a>(children: Seq<TreeNode>) -> Seq<&'a TreeNode> {
    Seq::new(children.len(), |i: int| &children[i])
}

/// The files that a crawl visits, in the order of the visits, when `queue`
/// is what waits: the first node of the queue is taken; a file is visited, a
/// directory puts its children at the end of the queue, and a directory that
/// cannot be read is passed over.
pub open spec fn crawl_order(queue: Seq<&TreeNode>) -> Seq<&MemoryFile>
    decreases waiting_count(queue),
    via crawl_order_decreases
{
    if queue.len() == 0 {
        Seq::empty()
    } else {
        let rest = queue.drop_first();
        match *queue[0] {
            TreeNode::File(file) => seq![&file] + crawl_order(rest),
            TreeNode::Directory(children) => crawl_order(rest + child_refs(children@)),
            TreeNode::Unreadable => crawl_order(rest),
        }
    }
}

#[via_fn]
proof fn crawl_order_decreases(queue: Seq<&TreeNode>) {
    if queue.len() > 0 {
        lemma_waiting_first(queue);
        match *queue[0] {
            TreeNode::Directory(children) => {
                lemma_waiting_children(child_refs(children@), children@);
                lemma_waiting_concat(queue.drop_first(), child_refs(children@));
            },
            _ => {},
        }
    }
}

proof fn lemma_found_concat(a: Seq<&MemoryFile>, b: Seq<&MemoryFile>)
    ensures
        files_found(a + b) == files_found(a).add(files_found(b)),
        found_bytes(a + b) == found_bytes(a) + found_bytes(b),
    decreases b.len(),
{
    if b.len() == 0 {
        assert(a + b =~= a);
        assert(files_found(a).add(files_found(b)) =~= files_found(a));
    } else {
        assert((a + b).drop_last() =~= a + b.drop_last());
        assert((a + b).last() == b.last());
        lemma_found_concat(a, b.drop_last());
        assert(files_found(a + b) =~= files_found(a).add(files_found(b)));
    }
}

/// A crawl is complete and visits nothing twice: the files it visits are,
/// as a bag, the files that can be reached from what waits in the queue.
pub proof fn lemma_crawl_visits_each_file_once(queue: Seq<&TreeNode>)
    ensures
        files_found(crawl_order(queue)) == waiting_files(queue),
        found_bytes(crawl_order(queue)) == waiting_bytes(queue),
    decreases waiting_count(queue),
{
    if queue.len() > 0 {
        let rest = queue.drop_first();
        lemma_waiting_first(queue);
        match *queue[0] {
            TreeNode::File(file) => {
                lemma_crawl_visits_each_file_once(rest);
                let head = seq![&file];
                lemma_found_concat(head, crawl_order(rest));
                assert(head.drop_last().len() == 0);
                assert(files_found(head.drop_last()) == Multiset::<MemoryFile>::empty());
                assert(files_found(head) =~= Multiset::singleton(file));
                assert(found_bytes(head.drop_last()) == 0);
                assert(head.last() == &file);
            },
            TreeNode::Directory(children) => {
                let refs = child_refs(children@);
                lemma_waiting_children(refs, children@);
                lemma_waiting_concat(rest, refs);
                lemma_crawl_visits_each_file_once(rest + refs);
                assert(files_found(crawl_order(queue)) =~= waiting_files(queue));
            },
            TreeNode::Unreadable => {
                lemma_crawl_visits_each_file_once(rest);
                assert(files_found(crawl_order(queue)) =~= waiting_files(queue));
            },
        }
    }
}

/// What a crawl came to.
#[derive(Debug)]
pub struct CrawlReport<'a> {
    /// The files visited, in the order of the visits.
    pub files: Vec<&'a MemoryFile>,
    /// The count of items still pending when the crawl ended.
    pub pending: usize,
    /// The count of items that were taken from the queue.
    pub steps: usize,
}

/// Crawls a tree held in memory, by the bookkeeping of [`Crawler`]: the root
/// is the first item; a directory taken from the queue puts its children
/// there, a directory that cannot be read is passed over, and a file is
/// visited.
///
/// The crawl ends, after as many steps as the tree has files and
/// directories within reach, with nothing pending, and it has then visited
/// every file within reach exactly once. This holds of any tree, one without
/// files and one with unreadable directories included.
pub fn crawl_tree<'a>(root: &'a TreeNode) -> (report: CrawlReport<'a>)
    requires
        node_count(*root) <= usize::MAX,
    ensures
        report.files@ == crawl_order(seq![root]),
        files_found(report.files@) == files_of(*root),
        found_bytes(report.files@) == tree_bytes(*root),
        report.pending == 0,
        report.steps == node_count(*root),
{
    let mut crawler: Crawler<&TreeNode> = Crawler::new(root);
    let mut files: Vec<&MemoryFile> = Vec::new();
    let mut steps: usize = 0;
    proof {
        lemma_waiting_first(crawler.queue());
        assert(crawler.queue().drop_first() =~= Seq::<&TreeNode>::empty());
        assert(files@ + crawl_order(crawler.queue()) =~= crawl_order(seq![root]));
    }
    loop
        invariant_except_break
            crawler.wf(),
            crawler.in_flight() == 0,
            node_count(*root) <= usize::MAX,
            files@ + crawl_order(crawler.queue()) == crawl_order(seq![root]),
            steps + waiting_count(crawler.queue()) == node_count(*root),
        ensures
            crawler.wf(),
            crawler.pending() == 0,
            files@ == crawl_order(seq![root]),
            steps == node_count(*root),
        decreases waiting_count(crawler.queue()),
    {
        let ghost waiting = crawler.queue();
        let ghost visited = files@;
        match crawler.take() {
            None => {
                assert(visited + crawl_order(waiting) =~= visited);
                break ;
            },
            Some(node) => {
                proof {
                    lemma_waiting_first(waiting);
                    lemma_waiting_count_covers_len(waiting.drop_first());
                }
                steps += 1;
                match node {
                    TreeNode::File(file) => {
                        files.push(file);
                        crawler.finish_item();
                        assert(files@ + crawl_order(crawler.queue()) =~= visited + crawl_order(
                            waiting,
                        ));
                    },
                    TreeNode::Directory(children) => {
                        let mut refs: Vec<&TreeNode> = Vec::new();
                        let mut i: usize = 0;
                        while i < children.len()
                            invariant
                                i <= children@.len(),
                                refs@.len() == i,
                                forall|j: int| 0 <= j < i ==> *refs@[j] == children@[j],
                            decreases children@.len() - i,
                        {
                            refs.push(&children[i]);
                            i += 1;
                        }
                        proof {
                            lemma_waiting_children(refs@, children@);
                            lemma_waiting_concat(waiting.drop_first(), refs@);
                            assert(refs@ =~= child_refs(children@));
                        }
                        crawler.finish_directory(refs);
                        assert(crawl_order(crawler.queue()) == crawl_order(waiting));
                    },
                    TreeNode::Unreadable => {
                        crawler.finish_item();
                        assert(crawl_order(crawler.queue()) == crawl_order(waiting));
                    },
                }
            },
        }
    }
    proof {
        let start = seq![root];
        lemma_crawl_visits_each_file_once(start);
        lemma_waiting_first(start);
        assert(start.drop_first() =~= Seq::<&TreeNode>::empty());
        assert(waiting_files(start) =~= files_of(*root));
    }
    CrawlReport { files, pending: crawler.pending_count(), steps }
}

/// What is sent to the workers that search the files of a crawl.
#[derive(Debug, Clone, PartialEq, Eq)]
pub enum WalkerMessage {
    /// A file to work on, by its path.
    File(String),
    /// No more work will come.
    Quit,
}

/// What a worker found when it waited for its next message.
#[derive(Debug, Clone, PartialEq, Eq)]
pub enum Received {
    /// Every sender is gone.
    Disconnected,
    /// This message arrived.
    Message(WalkerMessage),
}

/// What a worker does next.
#[derive(Debug, Clone, PartialEq, Eq)]
pub enum WorkerStep {
    /// Stop working.
    Stop,
    /// Work on the file at this path, then wait for the next message.
    Handle(String),
}

/// What a worker does on what it received.
pub open spec fn worker_step_for(received: Received) -> WorkerStep {
    match received {
        Received::Disconnected => WorkerStep::Stop,
        Received::Message(WalkerMessage::File(path)) => WorkerStep::Handle(path),
        Received::Message(WalkerMessage::Quit) => WorkerStep::Stop,
    }
}

/// Decides what a worker does next: it stops when told to quit or when every
/// sender is gone, and works on each file it is sent. A worker waits for
/// its message, so an empty queue is no reason to stop.
pub fn worker_step(received: Received) -> (step: WorkerStep)
    ensures
        step == worker_step_for(received),
{
    match received {
        Received::Disconnected => WorkerStep::Stop,
        Received::Message(message) => match message {
            WalkerMessage::File(path) => WorkerStep::Handle(path),
            WalkerMessage::Quit => WorkerStep::Stop,
        },
    }
}

/// What a worker of a crawl does next.
#[derive(Debug, Clone, PartialEq, Eq)]
pub enum CrawlStep<T> {
    /// Visit this item, which is now in flight, and report it done.
    Visit(T),
    /// Nothing waits, but an item in flight may still add to the queue:
    /// wait until one is reported done.
    Wait,
    /// The crawl is over: stop.
    Stop,
}

/// Decides what a worker of a crawl does next. Where an item waits, the
/// worker takes the first and visits it. Where none waits, the worker stops
/// if the crawl is over, and else waits: an empty queue alone ends nothing.
pub fn crawl_step<T>(crawler: &mut Crawler<T>) -> (step: CrawlStep<T>)
    requires
        old(crawler).wf(),
    ensures
        final(crawler).wf(),
        final(crawler).pending() == old(crawler).pending(),
        final(crawler).closed() == old(crawler).closed(),
        old(crawler).queue().len() > 0 ==> {
            &&& step == CrawlStep::Visit(old(crawler).queue()[0])
            &&& final(crawler).queue() == old(crawler).queue().drop_first()
            &&& final(crawler).in_flight() == old(crawler).in_flight() + 1
        },
        old(crawler).queue().len() == 0 ==> {
            &&& step == (if old(crawler).closed() {
                CrawlStep::<T>::Stop
            } else {
                CrawlStep::<T>::Wait
            })
            &&& step is Wait ==> old(crawler).in_flight() > 0
            &&& final(crawler).queue() == old(crawler).queue()
            &&& final(crawler).in_flight() == old(crawler).in_flight()
        },
{
    match crawler.take() {
        Some(item) => CrawlStep::Visit(item),
        None => if crawler.is_closed() {
            CrawlStep::Stop
        } else {
            CrawlStep::Wait
        },
    }
}

} // verus!
