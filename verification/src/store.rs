//! How tasks are written to and read from the database's text columns,
//! and the sample tasks a fresh database starts with.
use vstd::prelude::*;

use crate::calendar::{
    date_text, spec_parse_rfc3339, spec_parse_ymd, spec_rfc3339_text, Date, Timestamp,
};
use crate::models::{strings_view, Priority, Status, Task, TaskModel};
use crate::text::{
    chars_of, copy_str, push_str, spec_trim, string_of_range, trim, ascii_lower,
};

verus! {

// ---------------------------------------------------------------------
// Tags column
// ---------------------------------------------------------------------

/// The strings of `l` with `sep` between each two.
pub open spec fn joined(l: Seq<Seq<char>>, sep: Seq<char>) -> Seq<char>
    decreases l.len(),
{
    if l.len() == 0 {
        Seq::empty()
    } else if l.len() == 1 {
        l[0]
    } else {
        l[0] + sep + joined(l.drop_first(), sep)
    }
}

proof fn lemma_joined_push(l: Seq<Seq<char>>, x: Seq<char>, sep: Seq<char>)
    ensures
        joined(l.push(x), sep) == (if l.len() == 0 {
            x
        } else {
            joined(l, sep) + sep + x
        }),
    decreases l.len(),
{
    if l.len() >= 1 {
        assert(l.push(x).drop_first() =~= l.drop_first().push(x));
        lemma_joined_push(l.drop_first(), x, sep);
        if l.len() == 1 {
            assert(l.drop_first() =~= Seq::<Seq<char>>::empty());
        } else {
            assert(l[0] + sep + (joined(l.drop_first(), sep) + sep + x) =~= l[0] + sep + joined(
                l.drop_first(),
                sep,
            ) + sep + x);
        }
    }
}

/// The strings of `v` with `sep` between each two.
pub fn join_strings(v: &[String], sep: &str) -> (res: String)
    ensures
        res@ == joined(strings_view(v@), sep@),
{
    let ghost l = strings_view(v@);
    let mut out = String::new();
    let mut i: usize = 0;
    proof {
        assert(l.take(0) =~= Seq::<Seq<char>>::empty());
    }
    while i < v.len()
        invariant
            i <= v.len(),
            l == strings_view(v@),
            out@ == joined(l.take(i as int), sep@),
        decreases v.len() - i,
    {
        proof {
            assert(l.take(i + 1) =~= l.take(i as int).push(l[i as int]));
            lemma_joined_push(l.take(i as int), l[i as int], sep@);
        }
        if i > 0 {
            push_str(&mut out, sep);
        }
        push_str(&mut out, v[i].as_str());
        proof {
            if i == 0 {
                assert(out@ =~= l[0]);
            }
        }
        i += 1;
    }
    proof {
        assert(l.take(i as int) =~= l);
    }
    out
}

/// The tags joined by commas, as the tags column holds them.
pub fn join_tags(tags: &[String]) -> (res: String)
    ensures
        res@ == joined(strings_view(tags@), ","@),
{
    join_strings(tags, ",")
}

/// The longest prefix of `s` without a comma.
pub open spec fn comma_prefix(s: Seq<char>) -> Seq<char>
    decreases s.len(),
{
    if s.len() == 0 || s[0] == ',' {
        Seq::empty()
    } else {
        seq![s[0]] + comma_prefix(s.drop_first())
    }
}

pub proof fn lemma_comma_prefix(s: Seq<char>)
    ensures
        comma_prefix(s).len() <= s.len(),
        comma_prefix(s) == s.take(comma_prefix(s).len() as int),
        forall|k: int| 0 <= k < comma_prefix(s).len() ==> #[trigger] s[k] != ',',
        comma_prefix(s).len() < s.len() ==> s[comma_prefix(s).len() as int] == ',',
    decreases s.len(),
{
    if s.len() > 0 && s[0] != ',' {
        lemma_comma_prefix(s.drop_first());
        let w = comma_prefix(s.drop_first());
        assert forall|k: int| 0 <= k < comma_prefix(s).len() implies #[trigger] s[k] != ',' by {
            if k > 0 {
                assert(s[k] == s.drop_first()[k - 1]);
            }
        }
        assert(comma_prefix(s) =~= s.take(w.len() as int + 1));
    }
}

/// The comma-separated pieces of `s` (`str::split(',')`).
pub open spec fn pieces(s: Seq<char>) -> Seq<Seq<char>>
    decreases s.len(),
{
    let w = comma_prefix(s);
    proof {
        lemma_comma_prefix(s);
    }
    if w.len() >= s.len() {
        seq![s]
    } else {
        seq![w] + pieces(s.skip(w.len() as int + 1))
    }
}

/// The trimmed pieces that are not empty, in order.
pub open spec fn kept(ps: Seq<Seq<char>>) -> Seq<Seq<char>>
    decreases ps.len(),
{
    if ps.len() == 0 {
        Seq::empty()
    } else {
        let t = spec_trim(ps[0]);
        (if t.len() > 0 {
            seq![t]
        } else {
            Seq::empty()
        }) + kept(ps.drop_first())
    }
}

/// The tags a tags column holds: its comma-separated pieces, trimmed, the
/// empty ones left out.
pub open spec fn tags_of(s: Seq<char>) -> Seq<Seq<char>> {
    if s.len() == 0 {
        Seq::empty()
    } else {
        kept(pieces(s))
    }
}

proof fn lemma_kept_one(x: Seq<char>)
    ensures
        kept(seq![x]) == (if spec_trim(x).len() > 0 {
            seq![spec_trim(x)]
        } else {
            Seq::<Seq<char>>::empty()
        }),
{
    assert(seq![x][0] == x);
    assert(seq![x].drop_first() =~= Seq::<Seq<char>>::empty());
    assert(kept(Seq::<Seq<char>>::empty()) == Seq::<Seq<char>>::empty());
    if spec_trim(x).len() > 0 {
        assert(seq![spec_trim(x)] + Seq::<Seq<char>>::empty() =~= seq![spec_trim(x)]);
    } else {
        assert(Seq::<Seq<char>>::empty() + Seq::<Seq<char>>::empty() =~= Seq::<Seq<char>>::empty());
    }
}

proof fn lemma_kept_add(a: Seq<Seq<char>>, b: Seq<Seq<char>>)
    ensures
        kept(a + b) == kept(a) + kept(b),
    decreases a.len(),
{
    if a.len() == 0 {
        assert(a + b =~= b);
        assert(kept(a) + kept(b) =~= kept(b));
    } else {
        assert((a + b).drop_first() =~= a.drop_first() + b);
        lemma_kept_add(a.drop_first(), b);
        assert((a + b)[0] == a[0]);
    }
}

/// Reads the tags column.
pub fn split_tags(s: &str) -> (res: Vec<String>)
    ensures
        strings_view(res@) == tags_of(s@),
{
    let v = chars_of(s);
    let mut out: Vec<String> = Vec::new();
    if v.len() == 0 {
        proof {
            assert(strings_view(out@) =~= Seq::<Seq<char>>::empty());
        }
        return out;
    }
    let mut i: usize = 0;
    proof {
        assert(v@.skip(0) =~= v@);
        assert(strings_view(out@) + kept(pieces(v@.skip(0))) =~= kept(pieces(v@)));
    }
    loop
        invariant
            i <= v.len(),
            v@ == s@,
            v.len() > 0,
            strings_view(out@) + kept(pieces(v@.skip(i as int))) == kept(pieces(v@)),
        decreases v.len() - i,
    {
        let ghost rest = v@.skip(i as int);
        let mut j: usize = i;
        while j < v.len() && v[j] != ','
            invariant
                i <= j <= v.len(),
                forall|k: int| i <= k < j ==> v@[k] != ',',
            decreases v.len() - j,
        {
            j += 1;
        }
        let piece = string_of_range(&v, i, j);
        let t = trim(piece.as_str());
        proof {
            lemma_comma_prefix(rest);
            let w = comma_prefix(rest);
            assert forall|k: int| 0 <= k < j - i implies #[trigger] rest[k] != ',' by {
                assert(rest[k] == v@[i + k]);
            }
            if w.len() < j - i {
                assert(rest[w.len() as int] == ',');
            }
            if j < v.len() && j - i < w.len() {
                assert(rest[j - i] == v@[j as int]);
            }
            assert(w.len() == j - i);
            assert(w =~= piece@);
        }
        let ghost before = strings_view(out@);
        if !t.as_str().is_empty() {
            out.push(t);
        }
        proof {
            let w = comma_prefix(rest);
            let one: Seq<Seq<char>> = if spec_trim(w).len() > 0 {
                seq![spec_trim(w)]
            } else {
                Seq::empty()
            };
            assert(strings_view(out@) =~= before + one);
        }
        if j >= v.len() {
            proof {
                let w = comma_prefix(rest);
                assert(w.len() >= rest.len());
                assert(w =~= rest);
                assert(pieces(rest) == seq![rest]);
                lemma_kept_one(rest);
                assert(strings_view(out@) =~= kept(pieces(v@)));
            }
            return out;
        }
        proof {
            let w = comma_prefix(rest);
            assert(w.len() < rest.len());
            assert(rest.skip(w.len() as int + 1) =~= v@.skip(j + 1));
            assert(pieces(rest) == seq![w] + pieces(v@.skip(j + 1)));
            lemma_kept_add(seq![w], pieces(v@.skip(j + 1)));
            lemma_kept_one(w);
        }
        i = j + 1;
    }
}

/// A tag the tags column can hold as it is: not empty, no surrounding
/// whitespace, no comma.
pub open spec fn clean_tag(t: Seq<char>) -> bool {
    &&& t.len() > 0
    &&& spec_trim(t) == t
    &&& forall|k: int| 0 <= k < t.len() ==> t[k] != ','
}

proof fn lemma_comma_prefix_of_join(a: Seq<char>, b: Seq<char>)
    requires
        forall|k: int| 0 <= k < a.len() ==> a[k] != ',',
    ensures
        comma_prefix(a + ","@ + b) == a,
        comma_prefix(a) == a,
    decreases a.len(),
{
    reveal_strlit(",");
    if a.len() > 0 {
        assert((a + ","@ + b).drop_first() =~= a.drop_first() + ","@ + b);
        lemma_comma_prefix_of_join(a.drop_first(), b);
        assert(a =~= seq![a[0]] + a.drop_first());
    } else {
        assert((a + ","@ + b)[0] == ',');
    }
}

proof fn lemma_kept_clean(ps: Seq<Seq<char>>)
    ensures
        forall|i: int|
            0 <= i < kept(ps).len() ==> (#[trigger] kept(ps)[i]).len() > 0 && spec_trim(kept(ps)[i])
                == kept(ps)[i],
    decreases ps.len(),
{
    if ps.len() > 0 {
        lemma_kept_clean(ps.drop_first());
        crate::text::lemma_trim_idempotent(ps[0]);
        let t = spec_trim(ps[0]);
        let head: Seq<Seq<char>> = if t.len() > 0 {
            seq![t]
        } else {
            Seq::empty()
        };
        assert(kept(ps) == head + kept(ps.drop_first()));
        assert forall|i: int| 0 <= i < kept(ps).len() implies (#[trigger] kept(ps)[i]).len() > 0
            && spec_trim(kept(ps)[i]) == kept(ps)[i] by {
            if i < head.len() {
                assert(kept(ps)[i] == t);
            } else {
                assert(kept(ps)[i] == kept(ps.drop_first())[i - head.len()]);
            }
        }
    }
}

/// Reading a tags column never gives an empty tag or one with blanks
/// around it.
pub proof fn law_tags_read_are_clean(s: Seq<char>)
    ensures
        forall|i: int|
            0 <= i < tags_of(s).len() ==> (#[trigger] tags_of(s)[i]).len() > 0 && spec_trim(tags_of(s)[i])
                == tags_of(s)[i],
{
    if s.len() > 0 {
        lemma_kept_clean(pieces(s));
    }
}

/// Tags written to the tags column read back unchanged, when each is clean.
pub proof fn law_tags_roundtrip(l: Seq<Seq<char>>)
    requires
        forall|i: int| 0 <= i < l.len() ==> clean_tag(#[trigger] l[i]),
    ensures
        tags_of(joined(l, ","@)) == l,
    decreases l.len(),
{
    reveal_strlit(",");
    if l.len() == 0 {
    } else {
        let a = l[0];
        assert(clean_tag(a));
        if l.len() == 1 {
            lemma_comma_prefix_of_join(a, Seq::empty());
            assert(pieces(a) == seq![a]);
            lemma_kept_one(a);
        } else {
            let r = l.drop_first();
            let j = joined(r, ","@);
            assert forall|i: int| 0 <= i < r.len() implies clean_tag(#[trigger] r[i]) by {
                assert(r[i] == l[i + 1]);
            }
            law_tags_roundtrip(r);
            assert(clean_tag(r[0]));
            lemma_joined_nonempty(r);
            lemma_comma_prefix_of_join(a, j);
            let s = a + ","@ + j;
            assert(s.skip(a.len() as int + 1) =~= j);
            assert(pieces(s) == seq![a] + pieces(j));
            lemma_kept_add(seq![a], pieces(j));
            lemma_kept_one(a);
            assert(kept(pieces(s)) =~= seq![a] + r);
            assert(l =~= seq![a] + r);
        }
    }
}

proof fn lemma_joined_nonempty(l: Seq<Seq<char>>)
    requires
        l.len() > 0,
        l[0].len() > 0,
    ensures
        joined(l, ","@).len() > 0,
{
}

// ---------------------------------------------------------------------
// Task rows
// ---------------------------------------------------------------------

/// A task as the database's columns hold it.
#[derive(Debug)]
pub struct TaskRow {
    pub id: i64,
    pub parent_id: Option<i64>,
    pub project_id: Option<i64>,
    pub title: String,
    pub description: String,
    pub status: String,
    pub priority: String,
    pub due_date: Option<String>,
    pub tags: String,
    pub created_at: String,
    pub updated_at: String,
    pub completed_at: Option<String>,
}

/// Why a column did not read as a task field.
#[derive(Debug)]
pub enum RowFault {
    /// An unknown status or priority, with its message.
    Text(String),
    /// A date or time that does not parse.
    Time(chrono::ParseError),
}

/// A column (numbered as in the table) that did not read.
#[derive(Debug)]
pub struct RowError {
    pub column: usize,
    pub fault: RowFault,
}

/// Text of an optional column that counts: present and not empty.
pub open spec fn filled(s: Option<String>) -> Option<Seq<char>> {
    match s {
        Some(x) => if x@.len() > 0 {
            Some(x@)
        } else {
            None
        },
        None => None,
    }
}

/// The column that first fails to read, if any.
pub open spec fn first_bad_column(r: TaskRow) -> Option<int> {
    if Status::from_name(ascii_lower(r.status@)) is None {
        Some(5)
    } else if Priority::from_name(ascii_lower(r.priority@)) is None {
        Some(6)
    } else if filled(r.due_date) matches Some(d) && spec_parse_ymd(d) is None {
        Some(7)
    } else if spec_parse_rfc3339(r.created_at@) is None {
        Some(9)
    } else if spec_parse_rfc3339(r.updated_at@) is None {
        Some(10)
    } else if filled(r.completed_at) matches Some(c) && spec_parse_rfc3339(c) is None {
        Some(11)
    } else {
        None
    }
}

/// Whether `t` is what row `r` reads as (given that every column reads).
pub open spec fn read_as(r: TaskRow, t: TaskModel) -> bool {
    &&& t.id == r.id
    &&& t.parent_id == r.parent_id
    &&& t.project_id == r.project_id
    &&& t.title == r.title@
    &&& t.description == r.description@
    &&& Status::from_name(ascii_lower(r.status@)) == Some(t.status)
    &&& Priority::from_name(ascii_lower(r.priority@)) == Some(t.priority)
    &&& match filled(r.due_date) {
        Some(d) => t.due_date matches Some(dd) && spec_parse_ymd(d) == Some(dd@),
        None => t.due_date is None,
    }
    &&& t.tags == tags_of(r.tags@)
    &&& spec_parse_rfc3339(r.created_at@) == Some(t.created_at@)
    &&& spec_parse_rfc3339(r.updated_at@) == Some(t.updated_at@)
    &&& match filled(r.completed_at) {
        Some(c) => t.completed_at matches Some(cc) && spec_parse_rfc3339(c) == Some(cc@),
        None => t.completed_at is None,
    }
}

fn text_fault(column: usize, msg: String) -> (res: RowError)
    ensures
        res.column == column,
{
    RowError { column, fault: RowFault::Text(msg) }
}

fn time_fault(column: usize, e: chrono::ParseError) -> (res: RowError)
    ensures
        res.column == column,
{
    RowError { column, fault: RowFault::Time(e) }
}

/// Reads a task from its columns.
pub fn task_from_row(r: &TaskRow) -> (res: Result<Task, RowError>)
    ensures
        match res {
            Ok(t) => first_bad_column(*r) is None && read_as(*r, t@),
            Err(e) => first_bad_column(*r) == Some(e.column as int),
        },
{
    let status = match Status::parse(r.status.as_str()) {
        Ok(s) => s,
        Err(m) => return Err(text_fault(5, m)),
    };
    let priority = match Priority::parse(r.priority.as_str()) {
        Ok(p) => p,
        Err(m) => return Err(text_fault(6, m)),
    };
    let due_date = match &r.due_date {
        Some(s) => if s.as_str().is_empty() {
            None
        } else {
            match Date::parse_ymd(s.as_str()) {
                Ok(d) => Some(d),
                Err(e) => return Err(time_fault(7, e)),
            }
        },
        None => None,
    };
    let created_at = match Timestamp::parse_rfc3339(r.created_at.as_str()) {
        Ok(t) => t,
        Err(e) => return Err(time_fault(9, e)),
    };
    let updated_at = match Timestamp::parse_rfc3339(r.updated_at.as_str()) {
        Ok(t) => t,
        Err(e) => return Err(time_fault(10, e)),
    };
    let completed_at = match &r.completed_at {
        Some(s) => if s.as_str().is_empty() {
            None
        } else {
            match Timestamp::parse_rfc3339(s.as_str()) {
                Ok(t) => Some(t),
                Err(e) => return Err(time_fault(11, e)),
            }
        },
        None => None,
    };
    Ok(
        Task {
            id: r.id,
            parent_id: r.parent_id,
            project_id: r.project_id,
            title: copy_str(r.title.as_str()),
            description: copy_str(r.description.as_str()),
            status,
            priority,
            due_date,
            tags: split_tags(r.tags.as_str()),
            created_at,
            updated_at,
            completed_at,
        },
    )
}

/// The columns a task is written as.
pub open spec fn written_as(t: TaskModel, r: TaskRow) -> bool {
    &&& r.id == t.id
    &&& r.parent_id == t.parent_id
    &&& r.project_id == t.project_id
    &&& r.title@ == t.title
    &&& r.description@ == t.description
    &&& r.status@ == t.status.name()
    &&& r.priority@ == t.priority.name()
    &&& match t.due_date {
        Some(d) => r.due_date matches Some(s) && s@ == date_text(d@),
        None => r.due_date is None,
    }
    &&& r.tags@ == joined(t.tags, ","@)
    &&& r.created_at@ == spec_rfc3339_text(t.created_at@.0, t.created_at@.1)
    &&& r.updated_at@ == spec_rfc3339_text(t.updated_at@.0, t.updated_at@.1)
    &&& match t.completed_at {
        Some(c) => r.completed_at matches Some(s) && s@ == spec_rfc3339_text(c@.0, c@.1),
        None => r.completed_at is None,
    }
}

/// A task whose columns read back as the task: a due date and instants in
/// years 0 to 9999 without leap seconds, and clean tags.
pub open spec fn row_reads_back(t: TaskModel) -> bool {
    &&& (t.due_date matches Some(d) ==> crate::calendar::FIRST_FOUR_DIGIT_DAY <= d@
        <= crate::calendar::LAST_FOUR_DIGIT_DAY)
    &&& instant_writable(t.created_at)
    &&& instant_writable(t.updated_at)
    &&& (t.completed_at matches Some(c) ==> instant_writable(c))
    &&& forall|i: int| 0 <= i < t.tags.len() ==> clean_tag(#[trigger] t.tags[i])
}

/// Writes a task as columns. A task whose columns can read back does.
pub fn task_to_row(t: &Task) -> (res: TaskRow)
    ensures
        written_as(t@, res),
        row_reads_back(t@) ==> first_bad_column(res) is None && read_as(res, t@),
{
    let due_date = match t.due_date {
        Some(d) => Some(d.to_text()),
        None => None,
    };
    let completed_at = match t.completed_at {
        Some(c) => Some(c.to_rfc3339()),
        None => None,
    };
    let r = TaskRow {
        id: t.id,
        parent_id: t.parent_id,
        project_id: t.project_id,
        title: copy_str(t.title.as_str()),
        description: copy_str(t.description.as_str()),
        status: copy_str(t.status.as_str()),
        priority: copy_str(t.priority.as_str()),
        due_date,
        tags: join_tags(t.tags.as_slice()),
        created_at: t.created_at.to_rfc3339(),
        updated_at: t.updated_at.to_rfc3339(),
        completed_at,
    };
    proof {
        crate::models::law_status_name_roundtrip(t.status);
        crate::models::law_priority_name_roundtrip(t.priority);
        if row_reads_back(t@) {
            law_tags_roundtrip(t@.tags);
            if let Some(d) = t.due_date {
                reveal_strlit("");
                assert(r.due_date matches Some(s) && s@ == date_text(d@));
                assert(filled(r.due_date) is Some) by {
                    let s = r.due_date->0;
                    if s@.len() == 0 {
                        assert(spec_parse_ymd(s@) == Some(d@));
                    }
                }
            }
            if let Some(c) = t.completed_at {
                assert(filled(r.completed_at) is Some) by {
                    let s = r.completed_at->0;
                    assert(spec_parse_rfc3339(s@) == Some(c@));
                }
            }
        }
    }
    r
}

/// A row reads as at most one task. With `task_to_row` (whose row reads as
/// the task written, for a task that can read back) and `task_from_row`
/// (whose task is what the row reads as), reading back the row written for a
/// task gives that task.
pub proof fn law_read_as_unique(r: TaskRow, a: TaskModel, b: TaskModel)
    requires
        read_as(r, a),
        read_as(r, b),
    ensures
        a == b,
{
    if let Some(d) = a.due_date {
        crate::calendar::lemma_date_view_injective(d, b.due_date->0);
    }
    if let Some(c) = a.completed_at {
        crate::calendar::lemma_timestamp_view_injective(c, b.completed_at->0);
    }
    crate::calendar::lemma_timestamp_view_injective(a.created_at, b.created_at);
    crate::calendar::lemma_timestamp_view_injective(a.updated_at, b.updated_at);
}

// ---------------------------------------------------------------------
// Sample data
// ---------------------------------------------------------------------

/// A fresh task with a project, a priority and tags.
pub open spec fn sample(
    title: Seq<char>,
    parent: Option<i64>,
    project: Option<i64>,
    priority: Priority,
    tags: Seq<Seq<char>>,
    now: Timestamp,
) -> TaskModel {
    TaskModel {
        parent_id: parent,
        project_id: project,
        priority,
        tags,
        ..Task::fresh(title, now)
    }
}

fn sample_task(
    title: &str,
    parent: Option<i64>,
    project: Option<i64>,
    priority: Priority,
    tags: Vec<String>,
    now: Timestamp,
) -> (res: Task)
    ensures
        res@ == sample(title@, parent, project, priority, strings_view(tags@), now),
{
    let mut t = Task::new_at(title, now);
    t.parent_id = parent;
    t.project_id = project;
    t.priority = priority;
    t.tags = tags;
    t
}

fn one_tag(a: &str) -> (res: Vec<String>)
    ensures
        strings_view(res@) == seq![a@],
{
    let v = vec![copy_str(a)];
    proof {
        assert(strings_view(v@) =~= seq![a@]);
    }
    v
}

fn two_tags(a: &str, b: &str) -> (res: Vec<String>)
    ensures
        strings_view(res@) == seq![a@, b@],
{
    let v = vec![copy_str(a), copy_str(b)];
    proof {
        assert(strings_view(v@) =~= seq![a@, b@]);
    }
    v
}

/// The top-level sample tasks, in the order they are inserted; the first
/// is the parent of the sample subtasks.
pub open spec fn sample_roots(
    paper: Option<i64>,
    pbl: Option<i64>,
    research: Option<i64>,
    now: Timestamp,
) -> Seq<TaskModel> {
    seq![
        sample("論文誌執筆"@, None, paper, Priority::High, seq!["研究"@], now),
        sample("PBL資料作り"@, None, pbl, Priority::Medium, seq!["授業"@], now),
        sample("共著者用資料作り"@, None, paper, Priority::Medium, seq!["研究"@], now),
        sample("論文読み会の論文を読む"@, None, research, Priority::Medium, seq!["研究"@, "読書"@], now),
    ]
}

/// The sample subtasks of the task with id `parent`.
pub open spec fn sample_children(parent: i64, paper: Option<i64>, now: Timestamp) -> Seq<TaskModel> {
    seq![
        sample("関連研究を書く"@, Some(parent), paper, Priority::Medium, seq!["研究"@], now),
        sample("実験設定を書く"@, Some(parent), paper, Priority::Medium, seq!["研究"@], now),
        sample("結果表を整える"@, Some(parent), paper, Priority::Medium, seq!["研究"@], now),
    ]
}

/// The top-level sample tasks, given the ids of the projects "論文誌", "PBL"
/// and "研究" where they exist.
pub fn seed_roots(
    paper: Option<i64>,
    pbl: Option<i64>,
    research: Option<i64>,
    now: Timestamp,
) -> (res: Vec<Task>)
    ensures
        crate::models::task_models(res@) == sample_roots(paper, pbl, research, now),
{
    let t0 = sample_task("論文誌執筆", None, paper, Priority::High, one_tag("研究"), now);
    let t1 = sample_task("PBL資料作り", None, pbl, Priority::Medium, one_tag("授業"), now);
    let t2 = sample_task("共著者用資料作り", None, paper, Priority::Medium, one_tag("研究"), now);
    let t3 = sample_task(
        "論文読み会の論文を読む",
        None,
        research,
        Priority::Medium,
        two_tags("研究", "読書"),
        now,
    );
    let ghost ms = seq![t0@, t1@, t2@, t3@];
    let v = vec![t0, t1, t2, t3];
    proof {
        assert(crate::models::task_models(v@) =~= ms);
        assert(crate::models::task_models(v@) =~= sample_roots(paper, pbl, research, now));
    }
    v
}

/// The sample subtasks under the task with id `parent`.
pub fn seed_children(parent: i64, paper: Option<i64>, now: Timestamp) -> (res: Vec<Task>)
    ensures
        crate::models::task_models(res@) == sample_children(parent, paper, now),
{
    let t0 = sample_task("関連研究を書く", Some(parent), paper, Priority::Medium, one_tag("研究"), now);
    let t1 = sample_task("実験設定を書く", Some(parent), paper, Priority::Medium, one_tag("研究"), now);
    let t2 = sample_task("結果表を整える", Some(parent), paper, Priority::Medium, one_tag("研究"), now);
    let ghost ms = seq![t0@, t1@, t2@];
    let v = vec![t0, t1, t2];
    proof {
        assert(crate::models::task_models(v@) =~= ms);
        assert(crate::models::task_models(v@) =~= sample_children(parent, paper, now));
    }
    v
}

/// An instant whose RFC 3339 text reads back: a year from 0 to 9999 and no
/// leap second.
pub open spec fn instant_writable(t: Timestamp) -> bool {
    crate::calendar::FIRST_FOUR_DIGIT_SEC <= t@.0 <= crate::calendar::LAST_FOUR_DIGIT_SEC && t@.1
        < 1000000000
}

} // verus!
