//! The help text of a group command: how to call it, what it is for, and
//! the commands it holds.

use vstd::prelude::*;
use crate::ast::{Command, CommandV, Directive, DirectiveV, commands_view, lemma_commands_view};
use crate::codegen::{signature_chars, signature_text};
use crate::text::{chars_of, chars_of_string, join, push_all, string_of};

verus! {

/// The first description among the directives.
pub open spec fn first_desc(ds: Seq<DirectiveV>) -> Option<Seq<char>>
    decreases ds.len(),
{
    if ds.len() == 0 {
        None
    } else if ds[0] is Desc {
        Some(ds[0]->Desc_0)
    } else {
        first_desc(ds.drop_first())
    }
}

/// The line of a child command: its signature, then its description.
pub open spec fn child_line(c: CommandV) -> Seq<char> {
    "  "@ + signature_text(c) + match first_desc(c.directives) {
        Some(d) => "  "@ + d,
        None => Seq::empty(),
    } + "\n"@
}

/// The lines of the children, one after the other.
pub open spec fn child_lines(cs: Seq<CommandV>) -> Seq<char>
    decreases cs.len(),
{
    if cs.len() == 0 {
        Seq::empty()
    } else {
        child_lines(cs.drop_last()) + child_line(cs.last())
    }
}

/// The help text of a group: the usage line, the description where there
/// is one, and the list of its commands.
pub open spec fn group_help_spec(c: CommandV, path: Seq<Seq<char>>) -> Seq<char> {
    "Usage: nest "@ + join(path, " "@) + " [COMMAND]\n\n"@ + match first_desc(c.directives) {
        Some(d) => d + "\n\n"@,
        None => Seq::empty(),
    } + "Available commands:\n"@ + child_lines(c.children)
}

/// The help of group commands.
pub struct HelpFormatter;

impl HelpFormatter {
    /// The first description among the directives (see `first_desc`).
    pub fn extract_description(directives: &[Directive]) -> (r: Option<&String>)
        ensures
            match r {
                Some(s) => first_desc(directives@.map_values(|d: Directive| d@)) == Some(s@),
                None => first_desc(directives@.map_values(|d: Directive| d@)) is None,
            },
    {
        let ghost dv = directives@.map_values(|d: Directive| d@);
        let mut i: usize = 0;
        assert(dv.skip(0) =~= dv);
        while i < directives.len()
            invariant
                i <= directives@.len(),
                dv == directives@.map_values(|d: Directive| d@),
                first_desc(dv) == first_desc(dv.skip(i as int)),
            decreases directives.len() - i,
        {
            assert(dv.skip(i as int)[0] == directives@[i as int]@);
            assert(dv.skip(i as int).drop_first() =~= dv.skip(i + 1));
            match &directives[i] {
                Directive::Desc(s) => {
                    return Some(s);
                },
                _ => {},
            }
            i += 1;
        }
        None
    }

    /// The help text of a group command (see `group_help_spec`).
    pub fn group_help(command: &Command, command_path: &[String]) -> (s: String)
        ensures
            s@ == group_help_spec(command@, command_path@.map_values(|x: String| x@)),
    {
        proof {
            reveal_strlit("\n");
            reveal_strlit("  ");
        }
        let mut out = chars_of("Usage: nest ");
        push_all(&mut out, &crate::runtime::join_strings_vec(command_path, " "));
        push_all(&mut out, &chars_of(" [COMMAND]\n\n"));
        match Self::extract_description(&command.directives) {
            Some(d) => {
                push_all(&mut out, &chars_of_string(d));
                push_all(&mut out, &chars_of("\n\n"));
            },
            None => {},
        }
        push_all(&mut out, &chars_of("Available commands:\n"));
        let ghost head = out@;
        let ghost kv = commands_view(command.children@);
        proof {
            lemma_commands_view(command.children@);
        }
        let mut i: usize = 0;
        assert(kv.take(0) =~= Seq::<CommandV>::empty());
        assert(out@ =~= head + child_lines(kv.take(0)));
        while i < command.children.len()
            invariant
                i <= command.children@.len(),
                kv == commands_view(command.children@),
                kv == command@.children,
                kv.len() == command.children@.len(),
                forall|j: int| 0 <= j < kv.len() ==> #[trigger] kv[j] == command.children@[j]@,
                out@ == head + child_lines(kv.take(i as int)),
            decreases command.children.len() - i,
        {
            proof {
                reveal_strlit("\n");
                reveal_strlit("  ");
            }
            assert(kv.take(i + 1).drop_last() =~= kv.take(i as int));
            assert(kv.take(i + 1).last() == kv[i as int]);
            let child = &command.children[i];
            let ghost before = out@;
            push_all(&mut out, &chars_of("  "));
            push_all(&mut out, &signature_chars(child));
            match Self::extract_description(&child.directives) {
                Some(d) => {
                    push_all(&mut out, &chars_of("  "));
                    push_all(&mut out, &chars_of_string(d));
                },
                None => {},
            }
            out.push('\n');
            assert(out@ =~= before + child_line(kv[i as int]));
            i += 1;
        }
        assert(kv.take(command.children@.len() as int) =~= kv);
        string_of(&out)
    }
}

} // verus!
