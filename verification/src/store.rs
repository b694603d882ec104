//! The write protocol: which command goes to the store next, given how the
//! last one went.
//!
//! A batch is written inside one transaction: begin, one insert per row in
//! order, commit. The first failure ends the attempt: what was begun is
//! rolled back and nothing of the batch stays. The caller owns the
//! connection; it carries each command out and reports back how it went.
//!
//! The module also holds a small model of a transactional store, against
//! which the protocol is shown to write a batch all or nothing.

use crate::batch::RowView;
use vstd::prelude::*;

verus! {

/// The statement that creates the table unless it exists already.
pub open spec fn schema_text() -> Seq<char> {
    "CREATE TABLE IF NOT EXISTS imageData (id INTEGER PRIMARY KEY, idx INTEGER NOT NULL, img_path TEXT NOT NULL, size INTEGER NOT NULL, orientation TEXT NOT NULL, content TEXT NOT NULL)"@
}

/// The statement that inserts one row; its five parameters are the fields of
/// a row in their order.
pub open spec fn insert_text() -> Seq<char> {
    "INSERT INTO imageData (idx, img_path, size, orientation, content) VALUES (?1, ?2, ?3, ?4, ?5)"@
}

/// The statement that creates the table unless it exists already.
pub fn schema_statement() -> (sql: &'static str)
    ensures
        sql@ == schema_text(),
{
    "CREATE TABLE IF NOT EXISTS imageData (id INTEGER PRIMARY KEY, idx INTEGER NOT NULL, img_path TEXT NOT NULL, size INTEGER NOT NULL, orientation TEXT NOT NULL, content TEXT NOT NULL)"
}

/// The statement that inserts one row.
pub fn insert_statement() -> (sql: &'static str)
    ensures
        sql@ == insert_text(),
{
    "INSERT INTO imageData (idx, img_path, size, orientation, content) VALUES (?1, ?2, ?3, ?4, ?5)"
}

/// How the store answered the last command.
#[derive(Clone, Copy, Debug, PartialEq, Eq, Structural)]
pub enum Reply {
    Done,
    Failed,
}

/// What the caller has to do next.
#[derive(Clone, Copy, Debug, PartialEq, Eq, Structural)]
pub enum Command {
    /// Open the transaction.
    Begin,
    /// Insert the row at this position of the batch.
    Insert(usize),
    /// Commit the transaction.
    Commit,
    /// Roll the transaction back.
    Rollback,
    /// Nothing more to do; `committed` tells whether the batch was written.
    Stop { committed: bool },
}

/// Where the writer stands: which command is out and not yet answered.
#[derive(Clone, Copy, Debug, PartialEq, Eq, Structural)]
pub enum WriterState {
    /// `Begin` is out.
    Opening,
    /// `Insert(position)` is out.
    Inserting { position: usize },
    /// `Commit` is out.
    Committing,
    /// `Rollback` is out.
    RollingBack,
    /// The attempt is over.
    Finished { committed: bool },
}

/// The command that is out in a given state.
pub open spec fn pending_command(state: WriterState) -> Command {
    match state {
        WriterState::Opening => Command::Begin,
        WriterState::Inserting { position } => Command::Insert(position),
        WriterState::Committing => Command::Commit,
        WriterState::RollingBack => Command::Rollback,
        WriterState::Finished { committed } => Command::Stop { committed },
    }
}

/// The state that follows `state` once the command that is out was answered
/// with `reply`, for a batch of `total` rows.
pub open spec fn next_state(total: nat, state: WriterState, reply: Reply) -> WriterState {
    match state {
        WriterState::Opening => match reply {
            Reply::Done => if total == 0 {
                WriterState::Committing
            } else {
                WriterState::Inserting { position: 0 }
            },
            Reply::Failed => WriterState::Finished { committed: false },
        },
        WriterState::Inserting { position } => match reply {
            Reply::Done => if position + 1 < total {
                WriterState::Inserting { position: (position + 1) as usize }
            } else {
                WriterState::Committing
            },
            Reply::Failed => WriterState::RollingBack,
        },
        WriterState::Committing => match reply {
            Reply::Done => WriterState::Finished { committed: true },
            Reply::Failed => WriterState::RollingBack,
        },
        WriterState::RollingBack => WriterState::Finished { committed: false },
        WriterState::Finished { committed } => WriterState::Finished { committed },
    }
}

/// Drives the writing of one batch.
#[derive(Clone, Copy, Debug, PartialEq, Eq, Structural)]
pub struct BatchWriter {
    /// Number of rows in the batch.
    pub total: usize,
    /// Which command is out.
    pub state: WriterState,
}

impl BatchWriter {
    /// Starts the attempt to write a batch of `total` rows. The first
    /// command, `Begin`, is out at once.
    pub fn begin(total: usize) -> (started: (BatchWriter, Command))
        ensures
            started.0.total == total,
            started.0.state == WriterState::Opening,
            started.1 == Command::Begin,
    {
        (BatchWriter { total, state: WriterState::Opening }, Command::Begin)
    }

    /// The command that is out.
    pub fn command(&self) -> (command: Command)
        ensures
            command == pending_command(self.state),
            command matches Command::Insert(position) ==> self.state
                == (WriterState::Inserting { position }),
    {
        match self.state {
            WriterState::Opening => Command::Begin,
            WriterState::Inserting { position } => Command::Insert(position),
            WriterState::Committing => Command::Commit,
            WriterState::RollingBack => Command::Rollback,
            WriterState::Finished { committed } => Command::Stop { committed },
        }
    }

    /// Takes the answer to the command that is out and gives the next one.
    pub fn advance(&mut self, reply: Reply) -> (command: Command)
        ensures
            final(self).total == old(self).total,
            final(self).state == next_state(old(self).total as nat, old(self).state, reply),
            command == pending_command(final(self).state),
            command matches Command::Insert(position) ==> position < old(self).total,
    {
        let next = match self.state {
            WriterState::Opening => match reply {
                Reply::Done => if self.total == 0 {
                    WriterState::Committing
                } else {
                    WriterState::Inserting { position: 0 }
                },
                Reply::Failed => WriterState::Finished { committed: false },
            },
            WriterState::Inserting { position } => match reply {
                Reply::Done => if self.total > 0 && position < self.total - 1 {
                    WriterState::Inserting { position: position + 1 }
                } else {
                    WriterState::Committing
                },
                Reply::Failed => WriterState::RollingBack,
            },
            WriterState::Committing => match reply {
                Reply::Done => WriterState::Finished { committed: true },
                Reply::Failed => WriterState::RollingBack,
            },
            WriterState::RollingBack => WriterState::Finished { committed: false },
            WriterState::Finished { committed } => WriterState::Finished { committed },
        };
        self.state = next;
        self.command()
    }

    /// Whether the attempt is over.
    pub fn is_finished(&self) -> (over: bool)
        ensures
            over == (self.state is Finished),
    {
        match self.state {
            WriterState::Finished { .. } => true,
            _ => false,
        }
    }
}

/// A transactional store as the protocol sees it: the rows that readers of
/// the store can see, and the rows of an open transaction, if one is open.
pub struct StoreModel {
    pub visible: Seq<RowView>,
    pub pending: Option<Seq<RowView>>,
}

/// The store after `command` was answered with `reply`. A command that
/// failed leaves the store as it was. Rows inserted inside a transaction
/// become visible when it commits and are dropped when it is rolled back; a
/// row inserted outside any transaction is visible at once.
pub open spec fn apply(store: StoreModel, rows: Seq<RowView>, command: Command, reply: Reply)
    -> StoreModel {
    match reply {
        Reply::Failed => store,
        Reply::Done => match command {
            Command::Begin => StoreModel { visible: store.visible, pending: Some(Seq::empty()) },
            Command::Insert(position) => match store.pending {
                Some(inside) => StoreModel {
                    visible: store.visible,
                    pending: Some(inside.push(rows[position as int])),
                },
                None => StoreModel {
                    visible: store.visible.push(rows[position as int]),
                    pending: None,
                },
            },
            Command::Commit => match store.pending {
                Some(inside) => StoreModel { visible: store.visible + inside, pending: None },
                None => store,
            },
            Command::Rollback => StoreModel { visible: store.visible, pending: None },
            Command::Stop { .. } => store,
        },
    }
}

/// Writer and store after the writer, standing in `state`, has received the
/// given replies one after the other, each applied to the command that was
/// out when it came.
pub open spec fn run(rows: Seq<RowView>, state: WriterState, store: StoreModel, replies: Seq<Reply>)
    -> (WriterState, StoreModel)
    decreases replies.len(),
{
    if replies.len() == 0 {
        (state, store)
    } else {
        run(
            rows,
            next_state(rows.len(), state, replies.first()),
            apply(store, rows, pending_command(state), replies.first()),
            replies.drop_first(),
        )
    }
}

/// Whether the first `count` replies exist and are all `Done`.
pub open spec fn all_done(replies: Seq<Reply>, count: nat) -> bool
    decreases count,
{
    count == 0 || (replies.len() > 0 && replies.first() == Reply::Done && all_done(
        replies.drop_first(),
        (count - 1) as nat,
    ))
}

/// Number of `Done` replies that a writer in `state` still needs to have the
/// batch committed, if it still can.
pub open spec fn replies_needed(total: nat, state: WriterState) -> Option<nat> {
    match state {
        WriterState::Opening => Some(total + 2),
        WriterState::Inserting { position } => Some((total - position + 1) as nat),
        WriterState::Committing => Some(1),
        WriterState::RollingBack => None,
        WriterState::Finished { committed } => if committed {
            Some(0)
        } else {
            None
        },
    }
}

/// Whether the replies take a writer in `state` to a committed batch.
pub open spec fn will_commit(total: nat, state: WriterState, replies: Seq<Reply>) -> bool {
    match replies_needed(total, state) {
        Some(k) => all_done(replies, k),
        None => false,
    }
}

/// Whether writer and store fit together in the course of writing `rows` to a
/// store that showed `base` before.
pub open spec fn in_step(
    rows: Seq<RowView>,
    base: Seq<RowView>,
    state: WriterState,
    store: StoreModel,
) -> bool {
    &&& rows.len() <= usize::MAX
    &&& match state {
        WriterState::Opening => store.visible == base && store.pending is None,
        WriterState::Inserting { position } => {
            &&& position < rows.len()
            &&& store.visible == base
            &&& store.pending == Some(rows.take(position as int))
        },
        WriterState::Committing => store.visible == base && store.pending == Some(rows),
        WriterState::RollingBack => store.visible == base,
        WriterState::Finished { committed } => if committed {
            store.visible == base + rows && store.pending is None
        } else {
            store.visible == base
        },
    }
}

/// One reply keeps writer and store in step, and the batch can still be
/// committed afterwards exactly when the reply was `Done` and it could
/// before.
proof fn lemma_step(
    rows: Seq<RowView>,
    base: Seq<RowView>,
    state: WriterState,
    store: StoreModel,
    reply: Reply,
)
    requires
        in_step(rows, base, state, store),
    ensures
        in_step(
            rows,
            base,
            next_state(rows.len(), state, reply),
            apply(store, rows, pending_command(state), reply),
        ),
        match replies_needed(rows.len(), state) {
            Some(k) => if k == 0 {
                replies_needed(rows.len(), next_state(rows.len(), state, reply)) == Some(0nat)
            } else if reply == Reply::Done {
                replies_needed(rows.len(), next_state(rows.len(), state, reply)) == Some(
                    (k - 1) as nat,
                )
            } else {
                replies_needed(rows.len(), next_state(rows.len(), state, reply)) is None
            },
            None => replies_needed(rows.len(), next_state(rows.len(), state, reply)) is None,
        },
{
    match state {
        WriterState::Opening => {
            if reply == Reply::Done && rows.len() > 0 {
                assert(rows.take(0) =~= Seq::<RowView>::empty());
            }
            if reply == Reply::Done && rows.len() == 0 {
                assert(rows =~= Seq::<RowView>::empty());
            }
        },
        WriterState::Inserting { position } => {
            if reply == Reply::Done {
                let p = position as int;
                assert(rows.take(p).push(rows[p]) =~= rows.take(p + 1));
                if p + 1 >= rows.len() {
                    assert(rows.take(p + 1) =~= rows);
                }
            }
        },
        WriterState::Committing => {},
        WriterState::RollingBack => {},
        WriterState::Finished { committed } => {},
    }
}

/// From any point of the protocol on, the store ends up showing the whole
/// batch if the replies that are still needed all come and are `Done`, and
/// shows none of it otherwise.
proof fn lemma_run_from(
    rows: Seq<RowView>,
    base: Seq<RowView>,
    state: WriterState,
    store: StoreModel,
    replies: Seq<Reply>,
)
    requires
        in_step(rows, base, state, store),
    ensures
        in_step(rows, base, run(rows, state, store, replies).0, run(rows, state, store, replies).1),
        run(rows, state, store, replies).1.visible == if will_commit(rows.len(), state, replies) {
            base + rows
        } else {
            base
        },
        run(rows, state, store, replies).0 == (WriterState::Finished { committed: true })
            <==> will_commit(rows.len(), state, replies),
    decreases replies.len(),
{
    if replies.len() > 0 {
        let reply = replies.first();
        lemma_step(rows, base, state, store, reply);
        lemma_run_from(
            rows,
            base,
            next_state(rows.len(), state, reply),
            apply(store, rows, pending_command(state), reply),
            replies.drop_first(),
        );
        if replies_needed(rows.len(), state) == Some(0nat) {
            assert(all_done(replies, 0));
            assert(all_done(replies.drop_first(), 0));
        }
    }
}

/// All or nothing. Whatever the store answers and however far the caller
/// gets, a store with no transaction open shows after the attempt either
/// everything it showed before followed by the whole batch, or exactly what it
/// showed before. It shows the batch exactly when the begin, every insert and
/// the commit were all answered with `Done`, and then the writer reports the
/// batch as committed.
pub proof fn lemma_batch_all_or_nothing(
    rows: Seq<RowView>,
    store: StoreModel,
    replies: Seq<Reply>,
)
    requires
        rows.len() <= usize::MAX,
        store.pending is None,
    ensures
        run(rows, WriterState::Opening, store, replies).1.visible == if all_done(
            replies,
            rows.len() + 2,
        ) {
            store.visible + rows
        } else {
            store.visible
        },
        run(rows, WriterState::Opening, store, replies).0 == (WriterState::Finished {
            committed: true,
        }) <==> all_done(replies, rows.len() + 2),
{
    lemma_run_from(rows, store.visible, WriterState::Opening, store, replies);
}

/// `all_done` says that the first `count` replies exist and each is `Done`.
pub proof fn lemma_all_done(replies: Seq<Reply>, count: nat)
    ensures
        all_done(replies, count) <==> replies.len() >= count && forall|i: int|
            0 <= i < count ==> replies[i] == Reply::Done,
    decreases count,
{
    if count > 0 && replies.len() > 0 {
        let rest = replies.drop_first();
        lemma_all_done(rest, (count - 1) as nat);
        if all_done(replies, count) {
            assert forall|i: int| 0 <= i < count implies replies[i] == Reply::Done by {
                if i > 0 {
                    assert(rest[i - 1] == replies[i]);
                }
            }
        }
        if replies.len() >= count && forall|i: int| 0 <= i < count ==> replies[i] == Reply::Done {
            assert(replies.first() == replies[0]);
            assert forall|i: int| 0 <= i < count - 1 implies rest[i] == Reply::Done by {
                assert(rest[i] == replies[i + 1]);
            }
        }
    }
}

/// A failure on any insert leaves nothing behind. If the begin and the first
/// `fault` inserts of a batch succeed and the next insert fails, then
/// whatever is answered afterwards the store shows what it showed before the
/// batch, and once the rollback has been answered the writer has stopped and
/// reports the batch as not committed.
pub proof fn lemma_fault_leaves_nothing(
    rows: Seq<RowView>,
    store: StoreModel,
    replies: Seq<Reply>,
    fault: nat,
)
    requires
        rows.len() <= usize::MAX,
        store.pending is None,
        fault < rows.len(),
        replies.len() > fault + 1,
        forall|i: int| 0 <= i <= fault ==> replies[i] == Reply::Done,
        replies[fault as int + 1] == Reply::Failed,
    ensures
        run(rows, WriterState::Opening, store, replies).1.visible == store.visible,
        replies.len() > fault + 2 ==> run(rows, WriterState::Opening, store, replies).0 == (
        WriterState::Finished { committed: false }),
{
    lemma_batch_all_or_nothing(rows, store, replies);
    lemma_all_done(replies, rows.len() + 2);
    lemma_stops_after_fault(rows, WriterState::Opening, store, replies, fault + 1);
}

/// The writer in `state` that receives `Done` up to and `Failed` at the
/// position `at`, while it is still beginning or inserting there, has stopped
/// without committing one reply later.
proof fn lemma_stops_after_fault(
    rows: Seq<RowView>,
    state: WriterState,
    store: StoreModel,
    replies: Seq<Reply>,
    at: nat,
)
    requires
        rows.len() <= usize::MAX,
        replies.len() > at,
        forall|i: int| 0 <= i < at ==> replies[i] == Reply::Done,
        replies[at as int] == Reply::Failed,
        match state {
            WriterState::Opening => 1 <= at <= rows.len(),
            WriterState::Inserting { position } => position + at < rows.len(),
            _ => false,
        },
    ensures
        replies.len() > at + 1 ==> run(rows, state, store, replies).0 == (WriterState::Finished {
            committed: false,
        }),
    decreases at,
{
    let rest = replies.drop_first();
    let after = next_state(rows.len(), state, replies.first());
    let store_after = apply(store, rows, pending_command(state), replies.first());
    assert(run(rows, state, store, replies) == run(rows, after, store_after, rest));
    if at == 0 {
        assert(after == WriterState::RollingBack);
        if replies.len() > 1 {
            let stopped = next_state(rows.len(), after, rest.first());
            let store_stopped = apply(store_after, rows, pending_command(after), rest.first());
            assert(run(rows, after, store_after, rest) == run(
                rows,
                stopped,
                store_stopped,
                rest.drop_first(),
            ));
            lemma_finished_stays(rows, stopped, store_stopped, rest.drop_first());
        }
    } else {
        assert(replies[0] == Reply::Done);
        assert forall|i: int| 0 <= i < at - 1 implies rest[i] == Reply::Done by {
            assert(rest[i] == replies[i + 1]);
        }
        assert(rest[at - 1] == replies[at as int]);
        lemma_stops_after_fault(rows, after, store_after, rest, (at - 1) as nat);
    }
}

/// A writer that has stopped stays as it is, whatever it is told.
pub proof fn lemma_finished_stays(
    rows: Seq<RowView>,
    state: WriterState,
    store: StoreModel,
    replies: Seq<Reply>,
)
    requires
        state is Finished,
    ensures
        run(rows, state, store, replies) == (state, store),
    decreases replies.len(),
{
    if replies.len() > 0 {
        lemma_finished_stays(rows, state, store, replies.drop_first());
    }
}

/// The attempt is over after at most three replies more than the batch has
/// rows: begin, the inserts, commit, and a rollback if the commit failed.
pub proof fn lemma_run_terminates(
    rows: Seq<RowView>,
    state: WriterState,
    store: StoreModel,
    replies: Seq<Reply>,
)
    requires
        rows.len() <= usize::MAX,
        replies.len() >= steps_left(rows.len(), state),
    ensures
        run(rows, state, store, replies).0 is Finished,
    decreases replies.len(),
{
    if replies.len() > 0 {
        lemma_run_terminates(
            rows,
            next_state(rows.len(), state, replies.first()),
            apply(store, rows, pending_command(state), replies.first()),
            replies.drop_first(),
        );
    }
}

/// Largest number of replies a writer in `state` can still receive before it
/// stops.
pub open spec fn steps_left(total: nat, state: WriterState) -> nat {
    match state {
        WriterState::Opening => total + 3,
        WriterState::Inserting { position } => if position < total {
            (total - position + 2) as nat
        } else {
            3
        },
        WriterState::Committing => 2,
        WriterState::RollingBack => 1,
        WriterState::Finished { .. } => 0,
    }
}

} // verus!
