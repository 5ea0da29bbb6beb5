//! Commands to manipulate Docker images, especially for LanguageTool
//! applications. This module says which commands to run; running them is
//! left to the caller.

use crate::text::chars_of;
use vstd::prelude::*;
use vstd::string::StringExecFns;

verus! {

/// Whether `char::is_alphanumeric` of std holds of a character: whether
/// Unicode takes it for a letter or a number.
pub uninterp spec fn is_alphanumeric_char(c: char) -> bool;

/// `char::is_alphanumeric` of std tells whether a character is a letter or
/// a number.
pub assume_specification[ char::is_alphanumeric ](c: char) -> (b: bool)
    ensures
        b == is_alphanumeric_char(c),
;

/// What can be done with the image and its container.
#[derive(Clone, Copy, Debug, PartialEq, Eq, Structural)]
pub enum Action {
    /// Pull a docker image.
    Pull,
    /// Start a (detached) docker container.
    Start,
    /// Stop a docker container.
    Stop,
}

/// Commands to pull, start and stop a `LanguageTool` container using Docker.
#[derive(Clone, Debug, PartialEq, Eq)]
pub struct Docker {
    /// Image or repository from a registry.
    pub name: String,
    /// Path to Docker's binaries.
    pub bin: String,
    /// Name assigned to the container.
    pub container_name: String,
    /// Publish a container's port(s) to the host.
    pub port: String,
    /// Docker action.
    pub action: Action,
}

/// The letters and numbers of `s`, in their order.
pub open spec fn letters_and_numbers(s: Seq<char>) -> Seq<char>
    decreases s.len(),
{
    if s.len() == 0 {
        Seq::empty()
    } else if is_alphanumeric_char(s.last()) {
        letters_and_numbers(s.drop_last()).push(s.last())
    } else {
        letters_and_numbers(s.drop_last())
    }
}

/// The views of a sequence of strings.
pub open spec fn args_view(args: Seq<String>) -> Seq<Seq<char>> {
    args.map_values(|a: String| a@)
}

impl Default for Docker {
    fn default() -> (docker: Self)
        ensures
            docker.name@ == "erikvl87/languagetool"@,
            docker.bin@ == "docker"@,
            docker.container_name@ == "languagetool"@,
            docker.port@ == "8010:8010"@,
            docker.action == Action::Pull,
    {
        Self {
            name: "erikvl87/languagetool".to_owned(),
            bin: "docker".to_owned(),
            container_name: "languagetool".to_owned(),
            port: "8010:8010".to_owned(),
            action: Action::Pull,
        }
    }
}

impl Docker {
    /// Arguments of the command that pulls the image.
    pub fn pull_args(&self) -> (args: Vec<String>)
        ensures
            args_view(args@) == seq!["pull"@, self.name@],
    {
        let mut args: Vec<String> = Vec::new();
        args.push("pull".to_owned());
        args.push(self.name.clone());
        proof {
            assert(args_view(args@) =~= seq!["pull"@, self.name@]);
        }
        args
    }

    /// Arguments of the command that starts a detached container.
    pub fn start_args(&self) -> (args: Vec<String>)
        ensures
            args_view(args@) == seq![
                "run"@,
                "--rm"@,
                "--name"@,
                self.container_name@,
                "-d"@,
                "-p"@,
                "8010:8010"@,
                self.name@,
            ],
    {
        let mut args: Vec<String> = Vec::new();
        args.push("run".to_owned());
        args.push("--rm".to_owned());
        args.push("--name".to_owned());
        args.push(self.container_name.clone());
        args.push("-d".to_owned());
        args.push("-p".to_owned());
        args.push("8010:8010".to_owned());
        args.push(self.name.clone());
        proof {
            assert(args_view(args@) =~= seq![
                "run"@,
                "--rm"@,
                "--name"@,
                self.container_name@,
                "-d"@,
                "-p"@,
                "8010:8010"@,
                self.name@,
            ]);
        }
        args
    }

    /// Arguments of the command that asks for the identifier of the
    /// container that was created last under the name of this one.
    pub fn find_args(&self) -> (args: Vec<String>)
        ensures
            args_view(args@) == seq![
                "ps"@,
                "-l"@,
                "-f"@,
                "name="@ + self.container_name@,
                "-q"@,
            ],
    {
        let mut filter = "name=".to_owned();
        filter.append(self.container_name.as_str());
        let mut args: Vec<String> = Vec::new();
        args.push("ps".to_owned());
        args.push("-l".to_owned());
        args.push("-f".to_owned());
        args.push(filter);
        args.push("-q".to_owned());
        proof {
            assert(args_view(args@) =~= seq![
                "ps"@,
                "-l"@,
                "-f"@,
                "name="@ + self.container_name@,
                "-q"@,
            ]);
        }
        args
    }

    /// The identifier of a container as Docker printed it, without the line
    /// feed or anything else that is neither letter nor number.
    pub fn container_id(output: &str) -> (id: String)
        ensures
            id@ == letters_and_numbers(output@),
    {
        let chars = chars_of(output);
        let mut id = String::new();
        let mut i: usize = 0;
        while i < chars.len()
            invariant
                i <= chars.len(),
                chars@ == output@,
                id@ == letters_and_numbers(chars@.take(i as int)),
            decreases chars.len() - i,
        {
            proof {
                assert(chars@.take(i + 1).drop_last() =~= chars@.take(i as int));
                assert(chars@.take(i + 1).last() == chars@[i as int]);
            }
            if chars[i].is_alphanumeric() {
                id.push(chars[i]);
            }
            i += 1;
        }
        proof {
            assert(chars@.take(i as int) =~= chars@);
        }
        id
    }

    /// Arguments of the command that stops the container `id`.
    pub fn kill_args(id: &str) -> (args: Vec<String>)
        ensures
            args_view(args@) == seq!["kill"@, id@],
    {
        let mut args: Vec<String> = Vec::new();
        args.push("kill".to_owned());
        args.push(id.to_owned());
        proof {
            assert(args_view(args@) =~= seq!["kill"@, id@]);
        }
        args
    }
}

} // verus!
