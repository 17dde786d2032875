//! Bringing the tables of an older file up to date: which statements to run,
//! given which columns the file already has. Running them is the caller's
//! part; a statement that fails is passed over.

use vstd::prelude::*;
use vstd::string::StringExecFns;

verus! {

/// Which of the columns that were added later a file already has.
#[derive(Debug, Clone, Copy)]
pub struct SchemaState {
    pub streams_has_user_id: bool,
    pub profiles_has_user_id: bool,
    pub entries_has_user_id: bool,
    pub pending_blocks_has_user_id: bool,
    pub entries_has_profile_id: bool,
    pub streams_has_last_sequence_id: bool,
}

/// What stands before the table's name in the statement that adds the owner
/// column.
pub const ADD_USER_ID_HEAD: &'static str = "ALTER TABLE ";

/// What stands after the table's name in that statement.
pub const ADD_USER_ID_TAIL: &'static str =
    " ADD COLUMN user_id TEXT NOT NULL DEFAULT 'default-user'";

/// The statement that adds the profile column to the entries.
pub const ADD_PROFILE_ID: &'static str =
    "ALTER TABLE entries ADD COLUMN profile_id TEXT REFERENCES profiles(id) ON DELETE SET NULL";

/// The statement that adds to the streams the column in which a stream
/// remembers the last sequence number that it gave.
pub const ADD_LAST_SEQUENCE_ID: &'static str =
    "ALTER TABLE streams ADD COLUMN last_sequence_id INTEGER NOT NULL DEFAULT 0";

/// The statement that lets every stream remember at least the greatest
/// sequence number among its entries. It lowers nothing.
pub const RAISE_LAST_SEQUENCE_ID: &'static str =
    "UPDATE streams SET last_sequence_id = MAX(last_sequence_id, (SELECT COALESCE(MAX(sequence_id), 0) FROM entries WHERE entries.stream_id = streams.id))";

/// The index of the streams by owner.
pub const INDEX_STREAMS_USER: &'static str =
    "CREATE INDEX IF NOT EXISTS idx_streams_user_id ON streams(user_id)";

/// The index of the profiles by owner.
pub const INDEX_PROFILES_USER: &'static str =
    "CREATE INDEX IF NOT EXISTS idx_profiles_user_id ON profiles(user_id)";

/// The index of the entries by owner.
pub const INDEX_ENTRIES_USER: &'static str =
    "CREATE INDEX IF NOT EXISTS idx_entries_user_id ON entries(user_id)";

/// The index of the entries by profile.
pub const INDEX_ENTRIES_PROFILE: &'static str =
    "CREATE INDEX IF NOT EXISTS idx_entries_profile_id ON entries(profile_id)";

/// What stands before the table's name in the query for a column.
pub const PROBE_HEAD: &'static str = "SELECT 1 FROM pragma_table_info('";

/// What stands between the table's name and the column's.
pub const PROBE_MIDDLE: &'static str = "') WHERE name = '";

/// What stands after the column's name.
pub const PROBE_TAIL: &'static str = "'";

/// The statement that adds the owner column to `table`.
pub open spec fn add_user_id(table: Seq<char>) -> Seq<char> {
    ADD_USER_ID_HEAD@ + table + ADD_USER_ID_TAIL@
}

/// The query that tells whether `table` has `column`.
pub open spec fn column_probe(table: Seq<char>, column: Seq<char>) -> Seq<char> {
    PROBE_HEAD@ + table + PROBE_MIDDLE@ + column + PROBE_TAIL@
}

/// `[statement]` if it is wanted, nothing otherwise.
pub open spec fn when(wanted: bool, statement: Seq<char>) -> Seq<Seq<char>> {
    if wanted {
        seq![statement]
    } else {
        Seq::empty()
    }
}

/// The statements that bring a file in state `s` up to date, in the order in
/// which they are run: the owner column for each table that lacks it, the
/// profile column of the entries if it is lacking, the column of the last
/// sequence number if it is lacking, the statement that fills it, then the
/// four indexes.
pub open spec fn migration_plan(s: SchemaState) -> Seq<Seq<char>> {
    when(!s.streams_has_user_id, add_user_id("streams"@)) + when(
        !s.profiles_has_user_id,
        add_user_id("profiles"@),
    ) + when(!s.entries_has_user_id, add_user_id("entries"@)) + when(
        !s.pending_blocks_has_user_id,
        add_user_id("pending_blocks"@),
    ) + when(!s.entries_has_profile_id, ADD_PROFILE_ID@) + when(
        !s.streams_has_last_sequence_id,
        ADD_LAST_SEQUENCE_ID@,
    ) + seq![
        RAISE_LAST_SEQUENCE_ID@,
        INDEX_STREAMS_USER@,
        INDEX_PROFILES_USER@,
        INDEX_ENTRIES_USER@,
        INDEX_ENTRIES_PROFILE@,
    ]
}

/// The query that tells whether `table` has `column`.
pub fn column_probe_statement(table: &str, column: &str) -> (query: String)
    ensures
        query@ == column_probe(table@, column@),
{
    String::from_str(PROBE_HEAD).concat(table).concat(PROBE_MIDDLE).concat(column).concat(
        PROBE_TAIL,
    )
}

/// The statement that adds the owner column to `table`.
fn add_user_id_statement(table: &str) -> (statement: String)
    ensures
        statement@ == add_user_id(table@),
{
    String::from_str(ADD_USER_ID_HEAD).concat(table).concat(ADD_USER_ID_TAIL)
}

/// Adds `statement` to `plan` if it is wanted.
fn push_when(plan: &mut Vec<String>, wanted: bool, statement: String)
    ensures
        final(plan).deep_view() == old(plan).deep_view() + when(wanted, statement@),
{
    if wanted {
        plan.push(statement);
        assert(plan.deep_view() =~= old(plan).deep_view() + when(wanted, statement@));
    } else {
        assert(plan.deep_view() =~= old(plan).deep_view() + when(wanted, statement@));
    }
}

/// The statements that bring a file in state `state` up to date, in the
/// order in which they are to be run.
pub fn migration_statements(state: SchemaState) -> (plan: Vec<String>)
    ensures
        plan.deep_view() == migration_plan(state),
{
    let mut plan: Vec<String> = Vec::new();
    assert(plan.deep_view() =~= Seq::<Seq<char>>::empty());
    push_when(&mut plan, !state.streams_has_user_id, add_user_id_statement("streams"));
    push_when(&mut plan, !state.profiles_has_user_id, add_user_id_statement("profiles"));
    push_when(&mut plan, !state.entries_has_user_id, add_user_id_statement("entries"));
    push_when(
        &mut plan,
        !state.pending_blocks_has_user_id,
        add_user_id_statement("pending_blocks"),
    );
    push_when(&mut plan, !state.entries_has_profile_id, String::from_str(ADD_PROFILE_ID));
    push_when(
        &mut plan,
        !state.streams_has_last_sequence_id,
        String::from_str(ADD_LAST_SEQUENCE_ID),
    );
    let ghost conditional = plan.deep_view();
    plan.push(String::from_str(RAISE_LAST_SEQUENCE_ID));
    plan.push(String::from_str(INDEX_STREAMS_USER));
    plan.push(String::from_str(INDEX_PROFILES_USER));
    plan.push(String::from_str(INDEX_ENTRIES_USER));
    plan.push(String::from_str(INDEX_ENTRIES_PROFILE));
    proof {
        assert(plan.deep_view() =~= conditional + seq![
            RAISE_LAST_SEQUENCE_ID@,
            INDEX_STREAMS_USER@,
            INDEX_PROFILES_USER@,
            INDEX_ENTRIES_USER@,
            INDEX_ENTRIES_PROFILE@,
        ]);
        assert(plan.deep_view() =~= migration_plan(state));
    }
    plan
}

} // verus!
