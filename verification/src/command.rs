//! The backend launch command: a user template with `{ledger}` and `{task}`
//! placeholders, rendered into the shell command line that starts the service.

use vstd::prelude::*;

use vstd::string::*;

use crate::text::{
    chars_of, contains, contains_chars, ends_with, matches_at, matches_at_exec, string_from_chars,
};

verus! {

/// A backend command template.
#[derive(Debug)]
pub struct BackendCommand {
    template: String,
}

impl Clone for BackendCommand {
    fn clone(&self) -> (out: Self)
        ensures
            out@ == self@,
    {
        BackendCommand { template: self.template.clone() }
    }
}

impl View for BackendCommand {
    type V = Seq<char>;

    /// The template's characters.
    closed spec fn view(&self) -> Seq<char> {
        self.template@
    }
}

/// Whether a character keeps a special meaning inside double quotes and so
/// needs a backslash there: `\`, `"`, `$` and `` ` ``.
pub open spec fn needs_escape(c: char) -> bool {
    c == '\\' || c == '"' || c == '$' || c == '`'
}

/// `value` with a backslash put before each character that needs one inside
/// double quotes.
pub open spec fn escaped(value: Seq<char>) -> Seq<char>
    decreases value.len(),
{
    if value.len() == 0 {
        Seq::empty()
    } else {
        let rest = escaped(value.drop_last());
        if needs_escape(value.last()) {
            rest.push('\\').push(value.last())
        } else {
            rest.push(value.last())
        }
    }
}

/// `value` quoted for the shell: `''` when empty, otherwise in double quotes
/// with `\`, `"`, `$` and `` ` `` escaped by a backslash, so that the shell
/// passes it on as one word, unchanged.
pub open spec fn shell_quoted(value: Seq<char>) -> Seq<char> {
    if value.len() == 0 {
        "''"@
    } else {
        seq!['"'] + escaped(value) + seq!['"']
    }
}

/// Whether the placeholder `{ledger}` starts `t`.
pub open spec fn starts_with_ledger(t: Seq<char>) -> bool {
    t.len() >= 8 && t.subrange(0, 8) == seq!['{', 'l', 'e', 'd', 'g', 'e', 'r', '}']
}

/// Whether the placeholder `{task}` starts `t`.
pub open spec fn starts_with_task(t: Seq<char>) -> bool {
    t.len() >= 6 && t.subrange(0, 6) == seq!['{', 't', 'a', 's', 'k', '}']
}

/// The template with its placeholders filled in, in one pass from the left:
/// each `{ledger}` becomes the quoted ledger path and each `{task}` the quoted
/// task; the inserted text is not searched again.
pub open spec fn filled_template(template: Seq<char>, ledger: Seq<char>, task: Seq<char>) -> Seq<char>
    decreases template.len(),
{
    if template.len() == 0 {
        Seq::empty()
    } else if starts_with_ledger(template) {
        shell_quoted(ledger) + filled_template(template.skip(8), ledger, task)
    } else if starts_with_task(template) {
        shell_quoted(task) + filled_template(template.skip(6), ledger, task)
    } else {
        seq![template[0]] + filled_template(template.drop_first(), ledger, task)
    }
}

/// The command line a template renders to: the filled template, followed by
/// ` --ledger <quoted path>` when the template has no `{ledger}` placeholder,
/// followed by ` --stdio` when the template does not hold `--stdio`.
pub open spec fn rendered_command(template: Seq<char>, ledger: Seq<char>, task: Seq<char>) -> Seq<char> {
    let filled = filled_template(template, ledger, task);
    let with_ledger = if contains(template, "{ledger}"@) {
        filled
    } else {
        filled + " --ledger "@ + shell_quoted(ledger)
    };
    if contains(template, "--stdio"@) {
        with_ledger
    } else {
        with_ledger + " --stdio"@
    }
}

/// The characters of an optional task name, the empty sequence for none.
pub open spec fn task_view(task_name: Option<&str>) -> Seq<char> {
    match task_name {
        Some(t) => t@,
        None => Seq::empty(),
    }
}

fn push_all(out: &mut Vec<char>, more: &Vec<char>)
    ensures
        final(out)@ == old(out)@ + more@,
{
    let mut k: usize = 0;
    let ghost start = out@;
    while k < more.len()
        invariant
            k <= more.len(),
            out@ == start + more@.take(k as int),
        decreases more.len() - k,
    {
        out.push(more[k]);
        proof {
            assert(more@.take(k + 1) =~= more@.take(k as int).push(more@[k as int]));
        }
        k = k + 1;
    }
    proof {
        assert(more@.take(more@.len() as int) =~= more@);
    }
}

fn quote_chars(value: &Vec<char>) -> (out: Vec<char>)
    ensures
        out@ == shell_quoted(value@),
{
    if value.len() == 0 {
        let out = chars_of("''");
        return out;
    }
    let mut out: Vec<char> = Vec::new();
    out.push('"');
    let mut i: usize = 0;
    while i < value.len()
        invariant
            i <= value.len(),
            out@ == seq!['"'] + escaped(value@.take(i as int)),
        decreases value.len() - i,
    {
        let c = value[i];
        proof {
            assert(value@.take(i + 1).drop_last() =~= value@.take(i as int));
            assert(value@.take(i + 1).last() == c);
        }
        if c == '\\' || c == '"' || c == '$' || c == '`' {
            out.push('\\');
        }
        out.push(c);
        proof {
            let t = value@.take(i + 1);
            if needs_escape(c) {
                assert(out@ =~= seq!['"'] + escaped(t.drop_last()).push('\\').push(c));
            } else {
                assert(out@ =~= seq!['"'] + escaped(t.drop_last()).push(c));
            }
        }
        i = i + 1;
    }
    out.push('"');
    proof {
        assert(value@.take(value@.len() as int) =~= value@);
    }
    out
}

/// `value` quoted for the shell.
pub fn shell_quote(value: &str) -> (out: String)
    ensures
        out@ == shell_quoted(value@),
{
    let v = chars_of(value);
    let q = quote_chars(&v);
    string_from_chars(&q)
}

fn fill_placeholders(
    template: &Vec<char>,
    ledger_placeholder: &Vec<char>,
    task_placeholder: &Vec<char>,
    quoted_ledger: &Vec<char>,
    quoted_task: &Vec<char>,
    Ghost(ledger): Ghost<Seq<char>>,
    Ghost(task): Ghost<Seq<char>>,
) -> (out: Vec<char>)
    requires
        ledger_placeholder@ == seq!['{', 'l', 'e', 'd', 'g', 'e', 'r', '}'],
        task_placeholder@ == seq!['{', 't', 'a', 's', 'k', '}'],
        quoted_ledger@ == shell_quoted(ledger),
        quoted_task@ == shell_quoted(task),
    ensures
        out@ == filled_template(template@, ledger, task),
{
    let t = template;
    let mut out: Vec<char> = Vec::new();
    let mut i: usize = 0;
    proof {
        assert(t@.skip(0) =~= t@);
    }
    while i < t.len()
        invariant
            i <= t.len(),
            ledger_placeholder@ == seq!['{', 'l', 'e', 'd', 'g', 'e', 'r', '}'],
            task_placeholder@ == seq!['{', 't', 'a', 's', 'k', '}'],
            quoted_ledger@ == shell_quoted(ledger),
            quoted_task@ == shell_quoted(task),
            out@ + filled_template(t@.skip(i as int), ledger, task) == filled_template(t@, ledger, task),
        decreases t.len() - i,
    {
        let ghost rest = t@.skip(i as int);
        let ghost before = out@;
        if matches_at_exec(t, ledger_placeholder, i) {
            proof {
                assert(rest.subrange(0, 8) =~= t@.subrange(i as int, i + 8));
                assert(starts_with_ledger(rest));
                assert(rest.skip(8) =~= t@.skip(i + 8));
            }
            push_all(&mut out, quoted_ledger);
            i = i + 8;
            proof {
                assert(before + filled_template(rest, ledger, task) =~= out@ + filled_template(t@.skip(i as int), ledger, task));
            }
        } else if matches_at_exec(t, task_placeholder, i) {
            proof {
                if rest.len() >= 8 {
                    assert(rest.subrange(0, 8) =~= t@.subrange(i as int, i + 8));
                    assert(rest.subrange(0, 8)[1] == 't');
                }
                assert(!starts_with_ledger(rest));
                assert(rest.subrange(0, 6) =~= t@.subrange(i as int, i + 6));
                assert(starts_with_task(rest));
                assert(rest.skip(6) =~= t@.skip(i + 6));
            }
            push_all(&mut out, quoted_task);
            i = i + 6;
            proof {
                assert(before + filled_template(rest, ledger, task) =~= out@ + filled_template(t@.skip(i as int), ledger, task));
            }
        } else {
            proof {
                if rest.len() >= 8 {
                    assert(rest.subrange(0, 8) =~= t@.subrange(i as int, i + 8));
                }
                if rest.len() >= 6 {
                    assert(rest.subrange(0, 6) =~= t@.subrange(i as int, i + 6));
                }
                assert(!starts_with_ledger(rest));
                assert(!starts_with_task(rest));
                assert(rest.drop_first() =~= t@.skip(i + 1));
            }
            out.push(t[i]);
            i = i + 1;
            proof {
                assert(before + filled_template(rest, ledger, task) =~= out@ + filled_template(t@.skip(i as int), ledger, task));
            }
        }
    }
    proof {
        assert(t@.skip(t@.len() as int) =~= Seq::<char>::empty());
        assert(out@ + Seq::<char>::empty() =~= out@);
    }
    out
}

impl BackendCommand {
    /// A command from its template text.
    pub fn new(template: &str) -> (out: Self)
        ensures
            out@ == template@,
    {
        BackendCommand { template: String::from_str(template) }
    }

    /// The template text.
    pub fn template(&self) -> (out: &str)
        ensures
            out@ == self@,
    {
        self.template.as_str()
    }

    /// The shell command line for the ledger at `ledger_path` and the optional task.
    pub fn render(&self, ledger_path: &str, task_name: Option<&str>) -> (out: String)
        ensures
            out@ == rendered_command(self@, ledger_path@, task_view(task_name)),
    {
        let template = chars_of(self.template.as_str());
        let ledger = chars_of(ledger_path);
        let task = match task_name {
            Some(t) => chars_of(t),
            None => Vec::new(),
        };
        let quoted_ledger = quote_chars(&ledger);
        let quoted_task = quote_chars(&task);
        let ledger_placeholder = chars_of("{ledger}");
        let task_placeholder = chars_of("{task}");
        let stdio = chars_of("--stdio");
        proof {
            reveal_strlit("{ledger}");
            reveal_strlit("{task}");
            assert(ledger_placeholder@ =~= seq!['{', 'l', 'e', 'd', 'g', 'e', 'r', '}']);
            assert(task_placeholder@ =~= seq!['{', 't', 'a', 's', 'k', '}']);
        }
        let mut command = fill_placeholders(&template, &ledger_placeholder, &task_placeholder, &quoted_ledger, &quoted_task, Ghost(ledger@), Ghost(task@));
        if !contains_chars(&template, &ledger_placeholder) {
            let flag = chars_of(" --ledger ");
            push_all(&mut command, &flag);
            push_all(&mut command, &quoted_ledger);
        }
        if !contains_chars(&template, &stdio) {
            let flag = chars_of(" --stdio");
            push_all(&mut command, &flag);
        }
        string_from_chars(&command)
    }
}

/// A template that does not hold `--stdio` gets ` --stdio` appended as the
/// last word of the command line, whatever the ledger path and task are.
pub proof fn law_render_requests_stdio(template: Seq<char>, ledger: Seq<char>, task: Seq<char>)
    ensures
        !contains(template, "--stdio"@) ==> ends_with(rendered_command(template, ledger, task), " --stdio"@),
{
    let r = rendered_command(template, ledger, task);
    if !contains(template, "--stdio"@) {
        reveal_strlit(" --stdio");
        assert(r.subrange(r.len() - 8, r.len() as int) =~= " --stdio"@);
    }
}

/// A template without a `{ledger}` placeholder still passes the quoted ledger
/// path to the service, after a `--ledger` flag.
pub proof fn law_render_appends_ledger(template: Seq<char>, ledger: Seq<char>, task: Seq<char>)
    requires
        !contains(template, "{ledger}"@),
    ensures
        contains(rendered_command(template, ledger, task), " --ledger "@ + shell_quoted(ledger)),
{
    let filled = filled_template(template, ledger, task);
    let tail = " --ledger "@ + shell_quoted(ledger);
    let with_ledger = filled + " --ledger "@ + shell_quoted(ledger);
    let i = filled.len() as int;
    assert(with_ledger =~= filled + tail);
    assert(with_ledger.subrange(i, i + tail.len()) =~= tail);
    assert(matches_at(with_ledger, tail, i));
    if !contains(template, "--stdio"@) {
        let r = with_ledger + " --stdio"@;
        assert(r.subrange(i, i + tail.len()) =~= tail);
        assert(matches_at(r, tail, i));
    }
}

} // verus!
