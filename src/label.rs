//! Turning a workspace's icons into its label, and deciding on a rename.
use vstd::prelude::*;
use crate::order::opt_view;
use crate::tree::{windows_of, NodeKind, TreeNode};

verus! {

/// The character of a decimal digit.
pub open spec fn digit_char(d: nat) -> char {
    seq!['0', '1', '2', '3', '4', '5', '6', '7', '8', '9'][d as int]
}

/// The decimal digits of `n`, without leading zeros.
pub open spec fn digits(n: nat) -> Seq<char>
    decreases n,
{
    if n < 10 {
        seq![digit_char(n)]
    } else {
        digits(n / 10) + seq![digit_char(n % 10)]
    }
}

/// `n` written in decimal, with a leading minus sign when negative.
pub open spec fn decimal(n: int) -> Seq<char> {
    if n < 0 {
        seq!['-'] + digits((-n) as nat)
    } else {
        digits(n as nat)
    }
}

/// An icon between left-to-right override marks, so that right-to-left glyphs
/// do not reorder the label around them.
pub open spec fn wrap(icon: Seq<char>) -> Seq<char> {
    seq!['\u{202D}'] + icon + seq!['\u{202C}']
}

/// `s` without consecutive repeats.
pub open spec fn squeeze(s: Seq<Seq<char>>) -> Seq<Seq<char>>
    decreases s.len(),
{
    if s.len() <= 1 {
        s
    } else if s.last() == s[s.len() - 2] {
        squeeze(s.drop_last())
    } else {
        squeeze(s.drop_last()).push(s.last())
    }
}

/// The strings of `s` separated by single spaces.
pub open spec fn join(s: Seq<Seq<char>>) -> Seq<char>
    decreases s.len(),
{
    if s.len() == 0 {
        Seq::empty()
    } else if s.len() == 1 {
        s[0]
    } else {
        join(s.drop_last()) + seq![' '] + s.last()
    }
}

/// The icons as they stand in a label: each wrapped, and, when deduplicating,
/// without consecutive repeats.
pub open spec fn rendered(icons: Seq<Seq<char>>, deduplicate: bool) -> Seq<Seq<char>> {
    let wrapped = icons.map_values(|i: Seq<char>| wrap(i));
    if deduplicate {
        squeeze(wrapped)
    } else {
        wrapped
    }
}

/// The label of a workspace with index `num` and the given icons:
/// `"<index>: <icon> ... <icon> "`, or `"<index>"` without icons, or a single
/// space without an index.
pub open spec fn label_of(num: Option<i32>, icons: Seq<Seq<char>>, deduplicate: bool) -> Seq<char> {
    match num {
        None => seq![' '],
        Some(n) => if icons.len() == 0 {
            decimal(n as int)
        } else {
            decimal(n as int) + seq![':', ' '] + join(rendered(icons, deduplicate)) + seq![' ']
        },
    }
}

/// The characters of each string.
pub open spec fn texts(v: Seq<String>) -> Seq<Seq<char>> {
    v.map_values(|s: String| s@)
}

/// The compositor command that renames workspace `from` to `to`.
pub open spec fn rename_text(from: Seq<char>, to: Seq<char>) -> Seq<char> {
    seq!['r', 'e', 'n', 'a', 'm', 'e', ' ', 'w', 'o', 'r', 'k', 's', 'p', 'a', 'c', 'e', ' ', '"']
        + from + seq!['"', ' ', 't', 'o', ' ', '"'] + to + seq!['"']
}

/// The rename a workspace named `name` needs for its label to be `label`:
/// none when it already bears it.
pub open spec fn rename_for(name: Seq<char>, label: Seq<char>) -> Option<Seq<char>> {
    if name == label {
        None
    } else {
        Some(rename_text(name, label))
    }
}

/// The text of one decimal digit.
fn digit_text(d: u32) -> (r: &'static str)
    requires
        d < 10,
    ensures
        r@ == seq![digit_char(d as nat)],
{
    proof {
        reveal_strlit("0");
        reveal_strlit("1");
        reveal_strlit("2");
        reveal_strlit("3");
        reveal_strlit("4");
        reveal_strlit("5");
        reveal_strlit("6");
        reveal_strlit("7");
        reveal_strlit("8");
        reveal_strlit("9");
    }
    let r = if d == 0 {
        "0"
    } else if d == 1 {
        "1"
    } else if d == 2 {
        "2"
    } else if d == 3 {
        "3"
    } else if d == 4 {
        "4"
    } else if d == 5 {
        "5"
    } else if d == 6 {
        "6"
    } else if d == 7 {
        "7"
    } else if d == 8 {
        "8"
    } else {
        "9"
    };
    proof {
        assert(r@ =~= seq![digit_char(d as nat)]);
    }
    r
}

/// Appends the decimal digits of `n` to `out`.
fn push_digits(out: &mut String, n: u32)
    ensures
        final(out)@ == old(out)@ + digits(n as nat),
    decreases n,
{
    if n >= 10 {
        push_digits(out, n / 10);
    }
    out.append(digit_text(n % 10));
    proof {
        assert(final(out)@ =~= old(out)@ + digits(n as nat));
    }
}

/// `n` written in decimal.
pub fn decimal_text(n: i32) -> (r: String)
    ensures
        r@ == decimal(n as int),
{
    let mut out = String::new();
    if n < 0 {
        proof {
            reveal_strlit("-");
        }
        out.append("-");
        let magnitude: u32 = (-(n as i64)) as u32;
        push_digits(&mut out, magnitude);
    } else {
        push_digits(&mut out, n as u32);
    }
    proof {
        assert(out@ =~= decimal(n as int));
    }
    out
}

/// Relies on `String::push`: appends one character at the end.
#[verifier::external_body]
fn push_char(s: &mut String, c: char)
    ensures
        final(s)@ == old(s)@.push(c),
{
    s.push(c);
}

/// Wrapping is one to one.
proof fn lemma_wrap_injective(a: Seq<char>, b: Seq<char>)
    ensures
        wrap(a) == wrap(b) ==> a == b,
{
    if wrap(a) == wrap(b) {
        assert(a =~= wrap(a).subrange(1, wrap(a).len() - 1));
        assert(b =~= wrap(b).subrange(1, wrap(b).len() - 1));
    }
}

/// Squeezing keeps a non-empty sequence non-empty.
proof fn lemma_squeeze_nonempty(s: Seq<Seq<char>>)
    ensures
        s.len() > 0 ==> squeeze(s).len() > 0,
    decreases s.len(),
{
    if s.len() > 1 {
        lemma_squeeze_nonempty(s.drop_last());
    }
}

/// The rendered icons, joined by single spaces.
fn joined_icons(icons: &Vec<String>, deduplicate: bool) -> (r: String)
    ensures
        r@ == join(rendered(texts(icons@), deduplicate)),
{
    proof {
        reveal_strlit(" ");
    }
    let mut out = String::new();
    let mut i: usize = 0;
    proof {
        assert(rendered(texts(icons@.take(0)), deduplicate) =~= Seq::<Seq<char>>::empty());
    }
    while i < icons.len()
        invariant
            i <= icons@.len(),
            out@ == join(rendered(texts(icons@.take(i as int)), deduplicate)),
            i > 0 ==> rendered(texts(icons@.take(i as int)), deduplicate).len() > 0,
        decreases icons@.len() - i,
    {
        let ghost before = texts(icons@.take(i as int)).map_values(|x: Seq<char>| wrap(x));
        let ghost after = texts(icons@.take(i as int + 1)).map_values(|x: Seq<char>| wrap(x));
        let ghost item = wrap(icons@[i as int]@);
        proof {
            assert(after.drop_last() =~= before);
            assert(after.last() == item);
            if i > 0 {
                assert(after[after.len() - 2] == wrap(icons@[i - 1]@));
                lemma_wrap_injective(item, wrap(icons@[i - 1]@));
                lemma_wrap_injective(icons@[i as int]@, icons@[i - 1]@);
            }
            lemma_squeeze_nonempty(before);
        }
        let keep = !deduplicate || i == 0 || icons[i] != icons[i - 1];
        if keep {
            let ghost cur = rendered(texts(icons@.take(i as int)), deduplicate);
            let ghost next = rendered(texts(icons@.take(i as int + 1)), deduplicate);
            if i > 0 {
                out.append(" ");
            }
            push_char(&mut out, '\u{202D}');
            out.append(icons[i].as_str());
            push_char(&mut out, '\u{202C}');
            proof {
                reveal_strlit(" ");
                assert(next =~= cur.push(item));
                assert(next.drop_last() =~= cur);
                if i > 0 {
                    assert(out@ =~= join(cur) + seq![' '] + item);
                } else {
                    assert(cur.len() == 0);
                    assert(out@ =~= item);
                }
            }
        }
        i += 1;
    }
    proof {
        assert(icons@.take(i as int) =~= icons@);
    }
    out
}

/// The label of a workspace with index `num` whose windows' icons, in order,
/// are `icons`.
pub fn compose_label(num: Option<i32>, icons: &Vec<String>, deduplicate: bool) -> (r: String)
    ensures
        r@ == label_of(num, texts(icons@), deduplicate),
{
    proof {
        reveal_strlit(" ");
        reveal_strlit(": ");
    }
    match num {
        None => String::from_str(" "),
        Some(n) => {
            let mut label = decimal_text(n);
            if icons.len() > 0 {
                let joined = joined_icons(icons, deduplicate);
                label.append(": ");
                label.append(joined.as_str());
                label.append(" ");
            }
            proof {
                assert(label@ =~= label_of(num, texts(icons@), deduplicate));
            }
            label
        },
    }
}

/// The command that renames workspace `current` to `label`, or none when it
/// already bears that label.
pub fn rename_command(current: &String, label: &String) -> (r: Option<String>)
    ensures
        opt_view(r) == rename_for(current@, label@),
{
    if *current == *label {
        return None;
    }
    proof {
        reveal_strlit("rename workspace \"");
        reveal_strlit("\" to \"");
        reveal_strlit("\"");
    }
    let mut command = String::from_str("rename workspace \"");
    command.append(current.as_str());
    command.append("\" to \"");
    command.append(label.as_str());
    command.append("\"");
    proof {
        assert(command@ =~= rename_text(current@, label@));
    }
    Some(command)
}

/// Why a workspace's label could not be brought up to date.
#[derive(Debug, PartialEq, Eq, Structural)]
pub enum UpdateError {
    /// The workspace with this id has no name.
    MissingName { id: i64 },
}

/// The rename that workspace `workspace` needs, given the icons of its
/// windows in order: none when its name already equals its label, an error
/// when it has no name.
pub fn workspace_update(workspace: &TreeNode, icons: &Vec<String>, deduplicate: bool) -> (r: Result<
    Option<String>,
    UpdateError,
>)
    ensures
        workspace.name is None <==> r is Err,
        r matches Err(e) ==> e == (UpdateError::MissingName { id: workspace.id }),
        r matches Ok(c) ==> opt_view(c) == rename_for(
            workspace.name->0@,
            label_of(workspace.num, texts(icons@), deduplicate),
        ),
{
    match &workspace.name {
        None => Err(UpdateError::MissingName { id: workspace.id }),
        Some(name) => {
            let label = compose_label(workspace.num, icons, deduplicate);
            Ok(rename_command(name, &label))
        },
    }
}

/// Synthesis is idempotent: once a workspace bears the label synthesized for
/// it, the same windows and the same icons call for no further rename.
/// `renamed` is `workspace` after the rename: the same workspace with the new
/// name; its windows are those of `workspace`, and its label needs no change.
pub proof fn lemma_relabel_is_stable(
    workspace: TreeNode,
    renamed: TreeNode,
    icons: Seq<Seq<char>>,
    deduplicate: bool,
)
    requires
        workspace.kind == NodeKind::Workspace,
        renamed.kind == NodeKind::Workspace,
        renamed.num == workspace.num,
        renamed.nodes == workspace.nodes,
        renamed.floating_nodes == workspace.floating_nodes,
        renamed.name matches Some(n) && n@ == label_of(workspace.num, icons, deduplicate),
    ensures
        windows_of(renamed) == windows_of(workspace),
        rename_for(renamed.name->0@, label_of(renamed.num, icons, deduplicate)) is None,
{
    assert(windows_of(renamed) =~= windows_of(workspace));
}

} // verus!
