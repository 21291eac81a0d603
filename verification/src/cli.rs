//! The arguments of the command line, and how they become the settings of a run.
//!
//! The program is the engine of a GitHub Action and never asks back. Settings come from flags,
//! or, for the token, from the environment. There is no settings file, and no confirmation:
//! `--execute` deletes at once, within `--max-delete`.

use crate::config::{Config, OwnerType};
use crate::error::Error;
use crate::policy::Policy;
use crate::text::{
    chars_of, debug_text, holds_char, join, lemma_join_split, lemma_split_append, lemma_split_free,
    lemma_split_nonempty, lemma_split_pieces_free, opt_text, pieces, quoted, same_chars, spelled, split, string_of, trim,
    trimmed,
};
use std::path::PathBuf;
use vstd::prelude::*;

verus! {

/// The kind of owner, as an argument.
#[derive(Debug, Clone, Copy, PartialEq, Eq, Structural)]
pub enum OwnerTypeArg {
    User,
    Org,
}

/// The arguments of the command line.
#[derive(Debug)]
pub struct Args {
    /// Full image reference `ghcr.io/<owner>/<package>`, in place of owner and package.
    pub image: Option<String>,
    /// Owner of the packages. Required unless an image reference is given.
    pub owner: Option<String>,
    /// Name of the package. Without one, every package of the owner is processed.
    pub package: Option<String>,
    /// Delete build images strictly older than this many days.
    pub older_than_days: Option<i64>,
    /// Always keep at least this many of the most recent build images, whatever their age.
    pub keep_at_least: Option<usize>,
    /// GitHub token.
    pub token: Option<String>,
    /// Delete for real. Without this the plan is only reported.
    pub execute: bool,
    /// Abort if the plan would delete more versions than this.
    pub max_delete: Option<usize>,
    /// The kind of the owner, where the API should not be asked.
    pub owner_type: Option<OwnerTypeArg>,
    /// Also protect attestations that are linked to retained images by their subject.
    pub protect_subject_attestations: bool,
    /// How many read requests run at a time (8 by default).
    pub read_concurrency: Option<usize>,
    /// How many DELETE requests run at a time (3 by default).
    pub delete_concurrency: Option<usize>,
    /// Append a record of each deleted version to this file.
    pub audit_log: Option<PathBuf>,
    /// Base of the REST API.
    pub github_api_url: Option<String>,
    /// Base of the registry.
    pub registry_url: Option<String>,
}

/// What is wrong with a reference that carries a tag or a digest.
pub open spec fn not_bare(image: Seq<char>) -> Seq<char> {
    "--image "@ + debug_text(image) + " must be a bare repository (no :tag or @digest)"@
}

/// What is wrong with a reference of another shape.
pub open spec fn not_three_segments(image: Seq<char>) -> Seq<char> {
    "--image "@ + debug_text(image) + " must be exactly ghcr.io/<owner>/<package>"@
}

/// What is wrong with a reference to another host.
pub open spec fn not_on_ghcr(image: Seq<char>, host: Seq<char>) -> Seq<char> {
    "--image "@ + debug_text(image) + " must be on ghcr.io (got host "@ + debug_text(host) + ")"@
}

/// Whether a trimmed reference carries a tag or a digest: an `@` anywhere, or a `:` in its last
/// segment.
pub open spec fn has_suffix(reference: Seq<char>) -> bool {
    reference.contains('@') || split(reference, '/').last().contains(':')
}

/// The owner and the package that an image reference names, or what is wrong with it.
pub open spec fn parsed_image(image: Seq<char>) -> Result<(Seq<char>, Seq<char>), Seq<char>> {
    let reference = trim(image);
    let parts = split(reference, '/');
    if has_suffix(reference) {
        Err(not_bare(image))
    } else if parts.len() != 3 || parts[0].len() == 0 || parts[1].len() == 0 || parts[2].len()
        == 0 {
        Err(not_three_segments(image))
    } else if parts[0] != "ghcr.io"@ {
        Err(not_on_ghcr(image, parts[0]))
    } else {
        Ok((parts[1], parts[2]))
    }
}

/// The owner, and the package if there is one, that arguments name, or what is wrong with them.
pub open spec fn target_of(args: Args) -> Result<(Seq<char>, Option<Seq<char>>), Seq<char>> {
    match args.image {
        Some(image) => match parsed_image(image@) {
            Ok(target) => Ok((target.0, Some(target.1))),
            Err(m) => Err(m),
        },
        None => match args.owner {
            Some(owner) => Ok((owner@, opt_text(args.package))),
            None => Err(
                "a target is required: pass --image ghcr.io/<owner>/<package>, or the positional owner [package]"@,
            ),
        },
    }
}

/// What is wrong with arguments, if anything: the first complaint in this order.
pub open spec fn complaint(args: Args) -> Option<Seq<char>> {
    if target_of(args) is Err {
        Some(target_of(args)->Err_0)
    } else if args.older_than_days is None {
        Some("--older-than-days is required"@)
    } else if args.older_than_days->0 < 0 {
        Some("--older-than-days must be >= 0"@)
    } else if args.keep_at_least is None {
        Some("--keep-at-least is required"@)
    } else if args.token is None {
        Some("no GitHub token: set GITHUB_TOKEN (or pass --token)"@)
    } else if args.read_concurrency == Some(0usize) || args.delete_concurrency == Some(0usize) {
        Some("concurrency values must be >= 1"@)
    } else {
        None
    }
}

/// Whether `config` holds the settings that `args` ask for.
pub open spec fn resolves_to(args: Args, config: Config) -> bool {
    &&& target_of(args) == Ok::<(Seq<char>, Option<Seq<char>>), Seq<char>>(
        (config.owner@, opt_text(config.package)),
    )
    &&& config.owner_type == match args.owner_type {
        Some(OwnerTypeArg::User) => Some(OwnerType::User),
        Some(OwnerTypeArg::Org) => Some(OwnerType::Organization),
        None => None,
    }
    &&& Some(config.policy.older_than_days) == args.older_than_days
    &&& Some(config.policy.keep_at_least) == args.keep_at_least
    &&& Some(config.token) == args.token
    &&& config.dry_run == !args.execute
    &&& config.max_delete == args.max_delete
    &&& config.read_concurrency == match args.read_concurrency {
        Some(n) => n,
        None => 8,
    }
    &&& config.delete_concurrency == match args.delete_concurrency {
        Some(n) => n,
        None => 3,
    }
    &&& config.protect_subject_attestations == args.protect_subject_attestations
    &&& config.audit_log == args.audit_log
    &&& config.api_base == args.github_api_url
    &&& config.registry_base == args.registry_url
}

impl Args {
    /// Check the arguments and make the settings of a run of them.
    pub fn resolve(self) -> (r: Result<Config, Error>)
        ensures
            match r {
                Ok(config) => complaint(self) is None && resolves_to(self, config),
                Err(Error::Config(m)) => complaint(self) == Some(m@),
                Err(_) => false,
            },
    {
        let (owner, package): (String, Option<String>) = match &self.image {
            Some(image) => match parse_image(image.as_str()) {
                Ok((owner, package)) => (owner, Some(package)),
                Err(e) => {
                    return Err(e);
                },
            },
            None => match self.owner {
                Some(owner) => (owner, self.package),
                None => {
                    return Err(
                        Error::Config(
                            "a target is required: pass --image ghcr.io/<owner>/<package>, or the positional owner [package]".to_owned(),
                        ),
                    );
                },
            },
        };
        let older_than_days: i64 = match self.older_than_days {
            Some(days) => days,
            None => {
                return Err(Error::Config("--older-than-days is required".to_owned()));
            },
        };
        if older_than_days < 0 {
            return Err(Error::Config("--older-than-days must be >= 0".to_owned()));
        }
        let keep_at_least: usize = match self.keep_at_least {
            Some(n) => n,
            None => {
                return Err(Error::Config("--keep-at-least is required".to_owned()));
            },
        };
        let token: String = match self.token {
            Some(token) => token,
            None => {
                return Err(
                    Error::Config(
                        "no GitHub token: set GITHUB_TOKEN (or pass --token)".to_owned(),
                    ),
                );
            },
        };
        let owner_type: Option<OwnerType> = match self.owner_type {
            Some(OwnerTypeArg::User) => Some(OwnerType::User),
            Some(OwnerTypeArg::Org) => Some(OwnerType::Organization),
            None => None,
        };
        let read_concurrency: usize = self.read_concurrency.unwrap_or(8);
        let delete_concurrency: usize = self.delete_concurrency.unwrap_or(3);
        if read_concurrency == 0 || delete_concurrency == 0 {
            return Err(Error::Config("concurrency values must be >= 1".to_owned()));
        }
        Ok(
            Config {
                owner,
                package,
                owner_type,
                policy: Policy { older_than_days, keep_at_least },
                token,
                dry_run: !self.execute,
                max_delete: self.max_delete,
                read_concurrency,
                delete_concurrency,
                protect_subject_attestations: self.protect_subject_attestations,
                audit_log: self.audit_log,
                api_base: self.github_api_url,
                registry_base: self.registry_url,
            },
        )
    }
}

/// Parse a reference `ghcr.io/<owner>/<package>` into owner and package.
///
/// A tag or a digest at its end, another host, and any shape but three segments that are not
/// empty are refused: a wrong parse would aim at the wrong package.
pub fn parse_image(image: &str) -> (r: Result<(String, String), Error>)
    ensures
        match r {
            Ok(target) => parsed_image(image@) == Ok::<(Seq<char>, Seq<char>), Seq<char>>(
                (target.0@, target.1@),
            ),
            Err(Error::Config(m)) => parsed_image(image@) == Err::<
                (Seq<char>, Seq<char>),
                Seq<char>,
            >(m@),
            Err(_) => false,
        },
{
    let all: Vec<char> = chars_of(image);
    let reference: Vec<char> = trimmed(&all);
    let parts: Vec<Vec<char>> = pieces(&reference, '/');
    let ghost split_parts = split(reference@, '/');
    proof {
        lemma_split_nonempty(reference@, '/');
        assert(spelled(parts@) == split_parts);
        assert(split_parts.last() == parts@[parts@.len() - 1]@);
    }
    if holds_char(&reference, '@') || holds_char(&parts[parts.len() - 1], ':') {
        let mut m: String = "--image ".to_owned();
        m.append(quoted(image).as_str());
        m.append(" must be a bare repository (no :tag or @digest)");
        return Err(Error::Config(m));
    }
    let misshapen: bool = parts.len() != 3 || parts[0].len() == 0 || parts[1].len() == 0
        || parts[2].len() == 0;
    proof {
        if split_parts.len() == 3 {
            assert(split_parts[0] == parts@[0]@);
            assert(split_parts[1] == parts@[1]@);
            assert(split_parts[2] == parts@[2]@);
        }
    }
    if misshapen {
        let mut m: String = "--image ".to_owned();
        m.append(quoted(image).as_str());
        m.append(" must be exactly ghcr.io/<owner>/<package>");
        return Err(Error::Config(m));
    }
    if !same_chars(&parts[0], &chars_of("ghcr.io")) {
        let host: String = string_of(&parts[0]);
        let mut m: String = "--image ".to_owned();
        m.append(quoted(image).as_str());
        m.append(" must be on ghcr.io (got host ");
        m.append(quoted(host.as_str()).as_str());
        m.append(")");
        return Err(Error::Config(m));
    }
    Ok((string_of(&parts[1]), string_of(&parts[2])))
}

/// Whether a text can be a segment of a bare reference: it is not empty and holds neither a slash
/// nor an `@`.
pub open spec fn is_plain_segment(s: Seq<char>) -> bool {
    s.len() > 0 && !s.contains('/') && !s.contains('@')
}

/// An image reference names an owner and a package exactly where, but for white space around it, it
/// reads `ghcr.io/`, the owner, a slash and the package: nothing is guessed, and nothing that is
/// written so is refused.
pub proof fn law_image_reads_as_written(image: Seq<char>, owner: Seq<char>, package: Seq<char>)
    ensures
        parsed_image(image) == Ok::<(Seq<char>, Seq<char>), Seq<char>>((owner, package)) <==> {
            &&& trim(image) == "ghcr.io/"@ + owner + "/"@ + package
            &&& is_plain_segment(owner)
            &&& is_plain_segment(package)
            &&& !package.contains(':')
        },
{
    reveal_strlit("ghcr.io/");
    reveal_strlit("ghcr.io");
    reveal_strlit("/");
    let host = "ghcr.io"@;
    let reference = trim(image);
    let parts = split(reference, '/');
    let slash = seq!['/'];
    if parsed_image(image) == Ok::<(Seq<char>, Seq<char>), Seq<char>>((owner, package)) {
        lemma_join_split(reference, '/');
        lemma_split_pieces_free(reference, '/');
        assert(parts.drop_last().drop_last() =~= seq![parts[0]]);
        assert(parts.drop_last().len() == 2 && parts.drop_last().last() == parts[1]);
        reveal_with_fuel(join, 4);
        assert(reference == host + slash + owner + slash + package);
        assert(reference =~= "ghcr.io/"@ + owner + "/"@ + package);
        assert(!parts[1].contains('/') && !parts[2].contains('/'));
        assert forall|i: int| 0 <= i < owner.len() implies owner[i] != '@' by {
            assert(reference[host.len() + 1 + i] == owner[i]);
            assert(reference.contains(owner[i]));
        }
        assert forall|i: int| 0 <= i < package.len() implies package[i] != '@' by {
            assert(reference[host.len() + 2 + owner.len() + i] == package[i]);
            assert(reference.contains(package[i]));
        }
    }
    if trim(image) == "ghcr.io/"@ + owner + "/"@ + package && is_plain_segment(owner)
        && is_plain_segment(package) && !package.contains(':') {
        assert(!host.contains('/'));
        lemma_split_free(host, '/');
        lemma_split_append(host, '/', owner);
        lemma_split_append(host + slash + owner, '/', package);
        assert(reference =~= host + slash + owner + slash + package);
        assert(parts =~= seq![host, owner, package]);
        assert forall|i: int| 0 <= i < reference.len() implies reference[i] != '@' by {
            if i < host.len() {
                assert(reference[i] == host[i]);
            } else if host.len() < i < host.len() + 1 + owner.len() {
                assert(reference[i] == owner[i - host.len() - 1]);
                assert(owner.contains(reference[i]));
            } else if i > host.len() + 1 + owner.len() {
                assert(reference[i] == package[i - host.len() - 2 - owner.len()]);
                assert(package.contains(reference[i]));
            }
        }
    }
}

/// Why an image reference is refused. First comes a tag or a digest: an `@` anywhere, or a `:` after
/// the last slash. Then comes any shape but three segments between slashes that are not empty, and
/// then any host but `ghcr.io`. The message quotes the reference as it was given.
pub proof fn law_why_an_image_is_refused(image: Seq<char>)
    ensures
        ({
            let r = trim(image);
            let parts = split(r, '/');
            let suffix = r.contains('@') || parts.last().contains(':');
            let misshapen = parts.len() != 3 || exists|i: int|
                0 <= i < parts.len() && (#[trigger] parts[i]).len() == 0;
            let quoted_image = "--image "@ + debug_text(image);
            &&& parsed_image(image) is Ok <==> !suffix && !misshapen && parts[0] == "ghcr.io"@
            &&& suffix ==> parsed_image(image) == Err::<(Seq<char>, Seq<char>), Seq<char>>(
                quoted_image + " must be a bare repository (no :tag or @digest)"@,
            )
            &&& !suffix && misshapen ==> parsed_image(image) == Err::<
                (Seq<char>, Seq<char>),
                Seq<char>,
            >(quoted_image + " must be exactly ghcr.io/<owner>/<package>"@)
            &&& !suffix && !misshapen && parts[0] != "ghcr.io"@ ==> parsed_image(image) == Err::<
                (Seq<char>, Seq<char>),
                Seq<char>,
            >(quoted_image + " must be on ghcr.io (got host "@ + debug_text(parts[0]) + ")"@)
        }),
{
    let parts = split(trim(image), '/');
    if parts.len() == 3 {
        if parts[0].len() == 0 || parts[1].len() == 0 || parts[2].len() == 0 {
            let k: int = if parts[0].len() == 0 {
                0
            } else if parts[1].len() == 0 {
                1
            } else {
                2
            };
            assert(parts[k].len() == 0);
        }
    }
}

/// What arguments are aimed at: the image, where one is given, and otherwise the owner, with the
/// package if one is given.
pub proof fn law_targets(args: Args)
    ensures
        args.image matches Some(image) ==> match parsed_image(image@) {
            Ok((owner, package)) => target_of(args) == Ok::<
                (Seq<char>, Option<Seq<char>>),
                Seq<char>,
            >((owner, Some(package))),
            Err(m) => target_of(args) == Err::<(Seq<char>, Option<Seq<char>>), Seq<char>>(m),
        },
        args.image is None ==> (args.owner matches Some(owner) ==> target_of(args) == Ok::<
            (Seq<char>, Option<Seq<char>>),
            Seq<char>,
        >(
            (
                owner@,
                match args.package {
                    Some(package) => Some(package@),
                    None => None,
                },
            ),
        )),
        args.image is None && args.owner is None ==> target_of(args) == Err::<
            (Seq<char>, Option<Seq<char>>),
            Seq<char>,
        >(
            "a target is required: pass --image ghcr.io/<owner>/<package>, or the positional owner [package]"@,
        ),
{
}

/// Which arguments are refused, and with which words: the first of these that applies. All others
/// are accepted.
pub proof fn law_complaints(args: Args)
    ensures
        ({
            let days = args.older_than_days;
            let aimed = target_of(args) is Ok;
            let timed = aimed && days is Some && days->0 >= 0;
            let counted = timed && args.keep_at_least is Some;
            let trusted = counted && args.token is Some;
            let idle = args.read_concurrency == Some(0usize) || args.delete_concurrency == Some(
                0usize,
            );
            &&& complaint(args) is None <==> trusted && !idle
            &&& !aimed ==> complaint(args) == Some(target_of(args)->Err_0)
            &&& aimed && days is None ==> complaint(args) == Some("--older-than-days is required"@)
            &&& aimed && days is Some && days->0 < 0 ==> complaint(args) == Some(
                "--older-than-days must be >= 0"@,
            )
            &&& timed && !counted ==> complaint(args) == Some("--keep-at-least is required"@)
            &&& counted && !trusted ==> complaint(args) == Some(
                "no GitHub token: set GITHUB_TOKEN (or pass --token)"@,
            )
            &&& trusted && idle ==> complaint(args) == Some("concurrency values must be >= 1"@)
        }),
{
}

/// The settings that arguments become: each is the one that was given, or its default.
pub proof fn law_settings(args: Args, config: Config)
    requires
        resolves_to(args, config),
    ensures
        target_of(args) is Ok,
        config.owner@ == target_of(args)->Ok_0.0,
        config.package is Some <==> target_of(args)->Ok_0.1 is Some,
        config.package is Some ==> Some(config.package->0@) == target_of(args)->Ok_0.1,
        config.owner_type is None <==> args.owner_type is None,
        config.owner_type == Some(OwnerType::User) <==> args.owner_type == Some(OwnerTypeArg::User),
        args.older_than_days == Some(config.policy.older_than_days),
        args.keep_at_least == Some(config.policy.keep_at_least),
        args.token == Some(config.token),
        config.dry_run <==> !args.execute,
        config.max_delete == args.max_delete,
        args.read_concurrency is Some ==> args.read_concurrency == Some(config.read_concurrency),
        args.read_concurrency is None ==> config.read_concurrency == 8,
        args.delete_concurrency is Some ==> args.delete_concurrency == Some(
            config.delete_concurrency,
        ),
        args.delete_concurrency is None ==> config.delete_concurrency == 3,
        config.protect_subject_attestations == args.protect_subject_attestations,
        config.audit_log == args.audit_log,
        config.api_base == args.github_api_url,
        config.registry_base == args.registry_url,
{
}

} // verus!
