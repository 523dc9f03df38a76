//! Markdown export of a task list.
use vstd::prelude::*;

use crate::calendar::date_text;
use crate::models::{task_models, Status, Task, TaskModel};
use crate::text::{copy_str, push_char, push_str};
use crate::tree::{
    build_tree, built_from, depth_le, forest_model, lemma_forest_model, tree_model, TaskNode,
};

verus! {

/// `depth` copies of two spaces.
pub open spec fn indent(depth: nat) -> Seq<char>
    decreases depth,
{
    if depth == 0 {
        Seq::empty()
    } else {
        indent((depth - 1) as nat) + "  "@
    }
}

/// The checkbox mark: "x" for a done task, a space otherwise.
pub open spec fn mark_of(t: TaskModel) -> Seq<char> {
    if t.done() {
        "x"@
    } else {
        " "@
    }
}

/// " (due: YYYY-MM-DD)" for a task with a due date, nothing otherwise.
pub open spec fn due_part(t: TaskModel) -> Seq<char> {
    match t.due_date {
        Some(d) => " (due: "@ + date_text(d@) + ")"@,
        None => Seq::empty(),
    }
}

/// One checklist line.
pub open spec fn md_line(t: TaskModel, depth: nat) -> Seq<char> {
    indent(depth) + "- ["@ + mark_of(t) + "] "@ + t.title + due_part(t) + "\n"@
}

/// The lines of a forest, each node followed by its children one level deeper.
pub open spec fn md_forest(ns: Seq<TaskNode>, depth: nat) -> Seq<char>
    decreases ns,
{
    if ns.len() == 0 {
        Seq::empty()
    } else {
        md_node(ns[0], depth) + md_forest(ns.drop_first(), depth)
    }
}

pub open spec fn md_node(n: TaskNode, depth: nat) -> Seq<char>
    decreases n,
{
    md_line(n.task@, depth) + md_forest(n.children@, depth + 1)
}

/// The document: a "## title" heading, a blank line, then the checklist or
/// a placeholder when there is nothing to list.
pub open spec fn markdown_of(title: Seq<char>, nodes: Seq<TaskNode>) -> Seq<char> {
    "## "@ + title + "\n\n"@ + (if nodes.len() == 0 {
        "_(no tasks)_\n"@
    } else {
        md_forest(nodes, 0)
    })
}

proof fn lemma_indent_len(depth: nat)
    ensures
        indent(depth).len() == 2 * depth,
    decreases depth,
{
    reveal_strlit("  ");
    if depth > 0 {
        lemma_indent_len((depth - 1) as nat);
    }
}

/// Every node is written as its checklist line, "- [x] " for a task whose
/// status is Done and "- [ ] " for any other, then its title, its due date
/// if any, and its subtasks one level deeper: the box at column
/// `2 * depth + 3` holds 'x' exactly for a done task.
pub proof fn law_checkbox_marks_done(n: TaskNode, depth: nat)
    ensures
        md_node(n, depth) == indent(depth) + (if n.task.status == Status::Done {
            "- [x] "@
        } else {
            "- [ ] "@
        }) + n.task.title@ + due_part(n.task@) + "\n"@ + md_forest(n.children@, depth + 1),
        md_node(n, depth)[2 * depth as int + 3] == (if n.task.status == Status::Done {
            'x'
        } else {
            ' '
        }),
        md_node(n, depth).subrange(2 * depth as int, 2 * depth as int + 3) == "- ["@,
{
    reveal_strlit("- [x] ");
    reveal_strlit("- [ ] ");
    reveal_strlit("- [");
    reveal_strlit("] ");
    reveal_strlit("x");
    reveal_strlit(" ");
    lemma_indent_len(depth);
    let t = n.task@;
    let boxed = if t.status == Status::Done {
        "- [x] "@
    } else {
        "- [ ] "@
    };
    assert("- ["@ + mark_of(t) + "] "@ =~= boxed);
    let line = md_line(t, depth);
    assert(line =~= indent(depth) + boxed + t.title + due_part(t) + "\n"@);
    let whole = md_node(n, depth);
    assert(whole == line + md_forest(n.children@, depth + 1));
    assert(whole =~= indent(depth) + boxed + t.title + due_part(t) + "\n"@ + md_forest(
        n.children@,
        depth + 1,
    ));
    assert(whole[2 * depth as int + 3] == boxed[3]);
    assert(whole.subrange(2 * depth as int, 2 * depth as int + 3) =~= "- ["@);
}

/// The lines of a forest depend only on its value.
pub proof fn lemma_md_forest_model(a: Seq<TaskNode>, b: Seq<TaskNode>, depth: nat)
    requires
        forest_model(a) == forest_model(b),
    ensures
        md_forest(a, depth) == md_forest(b, depth),
    decreases a,
{
    lemma_forest_model(a);
    lemma_forest_model(b);
    if a.len() > 0 {
        let x = a[0];
        let y = b[0];
        assert(b.len() > 0);
        assert(forest_model(a)[0] == tree_model(x));
        assert(forest_model(b)[0] == tree_model(y));
        assert(tree_model(x) == tree_model(y));
        lemma_md_forest_model(x.children@, y.children@, depth + 1);
        lemma_forest_model(a.drop_first());
        lemma_forest_model(b.drop_first());
        assert(forest_model(a.drop_first()) =~= forest_model(b.drop_first())) by {
            assert forall|i: int| 0 <= i < a.len() - 1 implies forest_model(a.drop_first())[i]
                == forest_model(b.drop_first())[i] by {
                assert(a.drop_first()[i] == a[i + 1]);
                assert(b.drop_first()[i] == b[i + 1]);
                assert(forest_model(a)[i + 1] == tree_model(a[i + 1]));
                assert(forest_model(b)[i + 1] == tree_model(b[i + 1]));
                assert(forest_model(a.drop_first())[i] == tree_model(a.drop_first()[i]));
                assert(forest_model(b.drop_first())[i] == tree_model(b.drop_first()[i]));
            }
        }
        lemma_md_forest_model(a.drop_first(), b.drop_first(), depth);
        assert(md_node(x, depth) == md_node(y, depth));
    }
}

/// The Markdown of a task list is fixed by the list: any two forests built
/// from the same tasks give the same document.
pub proof fn law_markdown_fixed_by_tasks(
    title: Seq<char>,
    a: Seq<TaskNode>,
    b: Seq<TaskNode>,
    ts: Seq<TaskModel>,
)
    requires
        built_from(a, ts),
        built_from(b, ts),
    ensures
        markdown_of(title, a) == markdown_of(title, b),
{
    lemma_md_forest_model(a, b, 0);
    lemma_forest_model(a);
    lemma_forest_model(b);
}

fn write_node(out: &mut String, node: &TaskNode, depth: usize, Ghost(h): Ghost<nat>)
    requires
        depth_le(*node, h),
        depth + h <= usize::MAX + 1,
    ensures
        final(out)@ == old(out)@ + md_node(*node, depth as nat),
    decreases node,
{
    let ghost start = out@;
    let mut k: usize = 0;
    while k < depth
        invariant
            k <= depth,
            out@ == start + indent(k as nat),
        decreases depth - k,
    {
        push_str(out, "  ");
        proof {
            assert(start + indent((k + 1) as nat) =~= start + indent(k as nat) + "  "@);
        }
        k += 1;
    }
    push_str(out, "- [");
    if node.task.is_done() {
        push_str(out, "x");
    } else {
        push_str(out, " ");
    }
    push_str(out, "] ");
    push_str(out, node.task.title.as_str());
    if let Some(d) = node.task.due_date {
        push_str(out, " (due: ");
        let dt = d.to_text();
        push_str(out, dt.as_str());
        push_str(out, ")");
    }
    push_char(out, '\n');
    proof {
        reveal_strlit("\n");
        assert(out@ =~= start + md_line(node.task@, depth as nat));
    }
    let ghost after_line = out@;
    let mut i: usize = 0;
    proof {
        assert(node.children@.skip(0) =~= node.children@);
    }
    while i < node.children.len()
        invariant
            i <= node.children@.len(),
            depth_le(*node, h),
            depth + h <= usize::MAX + 1,
            out@ + md_forest(node.children@.skip(i as int), (depth + 1) as nat) == after_line
                + md_forest(node.children@, (depth + 1) as nat),
        decreases node.children@.len() - i,
    {
        let ghost before = out@;
        let ghost rest = node.children@.skip(i as int);
        proof {
            assert(rest[0] == node.children@[i as int]);
            assert(rest.drop_first() =~= node.children@.skip(i + 1));
            assert(depth_le(node.children@[i as int], (h - 1) as nat));
        }
        write_node(out, &node.children[i], depth + 1, Ghost((h - 1) as nat));
        proof {
            assert(before + md_forest(rest, (depth + 1) as nat) =~= out@ + md_forest(
                node.children@.skip(i + 1),
                (depth + 1) as nat,
            ));
        }
        i += 1;
    }
    proof {
        assert(node.children@.skip(i as int) =~= Seq::<TaskNode>::empty());
        assert(out@ =~= start + md_line(node.task@, depth as nat) + md_forest(
            node.children@,
            (depth + 1) as nat,
        ));
    }
}

/// Render a list of tasks as a Markdown checklist. Subtasks are indented under
/// their parents, using build_tree so parent/child relationships are honored.
pub fn render_markdown(title: &str, tasks: &[Task]) -> (res: String)
    ensures
        exists|nodes: Seq<TaskNode>|
            built_from(nodes, task_models(tasks@)) && res@ == markdown_of(title@, nodes),
{
    let tree = build_tree(tasks);
    let mut out = copy_str("## ");
    push_str(&mut out, title);
    push_str(&mut out, "\n\n");
    if tree.len() == 0 {
        push_str(&mut out, "_(no tasks)_\n");
        proof {
            assert(out@ =~= markdown_of(title@, tree@));
        }
        return out;
    }
    let ghost head = out@;
    let ghost h = (task_models(tasks@).len() + 1) as nat;
    let n: usize = tasks.len();
    let mut i: usize = 0;
    proof {
        assert(tree@.skip(0) =~= tree@);
        assert(task_models(tasks@).len() == tasks@.len());
        assert(n == tasks@.len());
    }
    while i < tree.len()
        invariant
            i <= tree@.len(),
            built_from(tree@, task_models(tasks@)),
            h == task_models(tasks@).len() + 1,
            h <= usize::MAX + 1,
            out@ + md_forest(tree@.skip(i as int), 0) == head + md_forest(tree@, 0),
        decreases tree@.len() - i,
    {
        let ghost before = out@;
        let ghost rest = tree@.skip(i as int);
        proof {
            assert(rest[0] == tree@[i as int]);
            assert(rest.drop_first() =~= tree@.skip(i + 1));
            assert(depth_le(tree@[i as int], h));
        }
        write_node(&mut out, &tree[i], 0, Ghost(h));
        proof {
            assert(before + md_forest(rest, 0) =~= out@ + md_forest(tree@.skip(i + 1), 0));
        }
        i += 1;
    }
    proof {
        assert(tree@.skip(i as int) =~= Seq::<TaskNode>::empty());
        assert(out@ =~= markdown_of(title@, tree@));
    }
    out
}

} // verus!
