//! The AWS CLI command line that starts an SSM session for a connection.
use vstd::prelude::*;
use vstd::string::*;
use crate::config::{opt_view, texts_view, ConnectionConfig, ConnectionView};
use crate::params::{pairs_view, ParamView, Parameters};

verus! {

/// The document that gives an interactive shell.
pub open spec fn interactive_document() -> Seq<char> {
    "AWS-StartInteractiveCommand"@
}

/// A connection is interactive when it names no document, or the
/// interactive-command document.
pub open spec fn interactive(c: ConnectionView) -> bool {
    c.document_name is None || c.document_name == Some(interactive_document())
}

pub fn is_interactive(config: &ConnectionConfig) -> (r: bool)
    ensures
        r == interactive(config@),
{
    match &config.document_name {
        None => true,
        Some(d) => *d == String::from_str("AWS-StartInteractiveCommand"),
    }
}

/// `key=value`.
pub open spec fn pair_text(e: ParamView) -> Seq<char> {
    e.0 + seq!['='] + e.1
}

/// The pairs as `key=value`, joined by commas, in listing order.
pub open spec fn join_pairs(s: Seq<ParamView>) -> Seq<char>
    decreases s.len(),
{
    if s.len() == 0 {
        Seq::empty()
    } else if s.len() == 1 {
        pair_text(s[0])
    } else {
        join_pairs(s.drop_last()) + seq![','] + pair_text(s.last())
    }
}

/// The value of `--parameters`: none when there are no parameters.
pub open spec fn parameters_text(s: Seq<ParamView>) -> Option<Seq<char>> {
    if s.len() == 0 {
        None
    } else {
        Some(join_pairs(s))
    }
}

pub fn parameters_argument(parameters: &Parameters) -> (r: Option<String>)
    ensures
        opt_view(r) == parameters_text(parameters@),
{
    if parameters.is_empty() {
        return None;
    }
    let entries = parameters.entries();
    let mut out = String::new();
    let mut i: usize = 0;
    while i < entries.len()
        invariant
            pairs_view(entries@) == parameters@,
            parameters@.len() == entries.len(),
            i <= entries.len(),
            out@ == join_pairs(parameters@.take(i as int)),
        decreases entries.len() - i,
    {
        let ghost s = parameters@.take(i + 1);
        assert(s.drop_last() =~= parameters@.take(i as int));
        assert(s.last() == (entries@[i as int].0@, entries@[i as int].1@));
        if i > 0 {
            out.append(",");
        }
        out.append(entries[i].0.as_str());
        out.append("=");
        out.append(entries[i].1.as_str());
        proof {
            reveal_strlit(",");
            reveal_strlit("=");
            if i == 0 {
                assert(out@ =~= pair_text(s.last()));
            } else {
                assert(out@ =~= join_pairs(s.drop_last()) + seq![','] + pair_text(s.last()));
            }
        }
        i = i + 1;
    }
    assert(parameters@.take(entries.len() as int) =~= parameters@);
    Some(out)
}

/// `[flag, value]` when there is a value, else nothing.
pub open spec fn opt_flag(flag: Seq<char>, o: Option<Seq<char>>) -> Seq<Seq<char>> {
    match o {
        Some(v) => seq![flag, v],
        None => Seq::empty(),
    }
}

/// The arguments to `aws` that start the session: profile and region
/// first, then `ssm start-session --target`, the document, the
/// parameters, and the extra arguments last.
pub open spec fn command_args(c: ConnectionView) -> Seq<Seq<char>> {
    opt_flag("--profile"@, c.profile) + opt_flag("--region"@, c.region) + seq![
        "ssm"@,
        "start-session"@,
        "--target"@,
        c.target,
    ] + opt_flag("--document-name"@, c.document_name) + match parameters_text(c.parameters) {
        Some(p) => seq!["--parameters"@, p],
        None => Seq::empty(),
    } + c.extra_args
}

/// A program and its arguments.
pub struct CommandLine {
    pub program: String,
    pub args: Vec<String>,
}

fn push_flag(args: &mut Vec<String>, flag: &str, value: &Option<String>)
    ensures
        texts_view(final(args)@) == texts_view(old(args)@) + opt_flag(flag@, opt_view(*value)),
{
    let ghost before = texts_view(args@);
    match value {
        Some(v) => {
            args.push(String::from_str(flag));
            args.push(v.clone());
            assert(texts_view(args@) =~= before + seq![flag@, v@]);
        },
        None => {
            assert(texts_view(args@) =~= before + Seq::<Seq<char>>::empty());
        },
    }
}

fn push_text(args: &mut Vec<String>, text: String)
    ensures
        texts_view(final(args)@) == texts_view(old(args)@).push(text@),
{
    let ghost before = args@;
    args.push(text);
    assert(args@ == before.push(text));
    assert(texts_view(args@) =~= texts_view(before).push(text@));
}

/// The `aws` command line for a connection.
pub fn command_for(config: &ConnectionConfig) -> (r: CommandLine)
    ensures
        r.program@ == "aws"@,
        texts_view(r.args@) == command_args(config@),
{
    let mut args: Vec<String> = Vec::new();
    assert(texts_view(args@) =~= Seq::<Seq<char>>::empty());
    push_flag(&mut args, "--profile", &config.profile);
    push_flag(&mut args, "--region", &config.region);
    push_text(&mut args, String::from_str("ssm"));
    push_text(&mut args, String::from_str("start-session"));
    push_text(&mut args, String::from_str("--target"));
    push_text(&mut args, config.target.clone());
    push_flag(&mut args, "--document-name", &config.document_name);
    let parameters = parameters_argument(&config.parameters);
    let ghost after_document = texts_view(args@);
    match parameters {
        Some(p) => {
            push_text(&mut args, String::from_str("--parameters"));
            push_text(&mut args, p);
        },
        None => {},
    }
    let ghost after_parameters = texts_view(args@);
    let mut i: usize = 0;
    while i < config.extra_args.len()
        invariant
            i <= config.extra_args.len(),
            texts_view(args@) == after_parameters + texts_view(config.extra_args@).take(i as int),
        decreases config.extra_args.len() - i,
    {
        push_text(&mut args, config.extra_args[i].clone());
        assert(texts_view(config.extra_args@).take(i + 1) =~= texts_view(config.extra_args@).take(
            i as int,
        ).push(config.extra_args@[i as int]@));
        i = i + 1;
    }
    assert(texts_view(config.extra_args@).take(i as int) =~= texts_view(config.extra_args@));
    assert(texts_view(args@) =~= command_args(config@));
    CommandLine { program: String::from_str("aws"), args }
}

} // verus!
