//! Commands for the management of the server.

use vstd::prelude::*;
use crate::client::client::Client;
use crate::client::pipeline::Pipeline;
use crate::client::prepared_command::{prepare_command, PreparedCommand};
use crate::client::transaction::Transaction;
use crate::commands::bitmap_commands::command_of;
use crate::commands::server_options::{
    AclCatOptions, AclDryRunOptions, AclGenPassOptions, AclLogOptions, CommandListOptions,
    FailOverOptions, FlushingMode,
};
use crate::resp::command::{cmd, IntoArgs};
use crate::resp::text::bytes_of;

verus! {

/// Commands for the management of the server. Each command is the name of
/// the command, the name of the sub-command where there is one, and the
/// arguments in the order given.
pub trait ServerCommands: Sized {
    /// Lists the ACL categories, or the commands of one category.
    fn acl_cat(&mut self, options: AclCatOptions) -> (r: PreparedCommand<'_, Self>)
        ensures
            r.command@ == command_of("ACL", seq![bytes_of("CAT")] + options.arg_list()),
            *r.executor == *old(self),
            *final(self) == *final(r.executor),
    {
        let ghost wanted = seq![bytes_of("CAT")] + options.arg_list();
        let command = cmd("ACL").arg("CAT").arg(options);
        assert(command@.args =~= wanted);
        prepare_command(self, command)
    }

    /// Deletes ACL users and closes their connections.
    fn acl_deluser<U: IntoArgs>(&mut self, usernames: U) -> (r: PreparedCommand<'_, Self>)
        ensures
            r.command@ == command_of("ACL", seq![bytes_of("DELUSER")] + usernames.arg_list()),
            *r.executor == *old(self),
            *final(self) == *final(r.executor),
    {
        let ghost wanted = seq![bytes_of("DELUSER")] + usernames.arg_list();
        let command = cmd("ACL").arg("DELUSER").arg(usernames);
        assert(command@.args =~= wanted);
        prepare_command(self, command)
    }

    /// Tries a command as a user without running it.
    fn acl_dryrun<U: IntoArgs, C: IntoArgs>(
        &mut self,
        username: U,
        command: C,
        options: AclDryRunOptions,
    ) -> (r: PreparedCommand<'_, Self>)
        ensures
            r.command@ == command_of(
                "ACL",
                seq![bytes_of("DRYRUN")] + username.arg_list() + command.arg_list()
                    + options.arg_list(),
            ),
            *r.executor == *old(self),
            *final(self) == *final(r.executor),
    {
        let ghost wanted = seq![bytes_of("DRYRUN")] + username.arg_list() + command.arg_list()
            + options.arg_list();
        let command = cmd("ACL").arg("DRYRUN").arg(username).arg(command).arg(options);
        assert(command@.args =~= wanted);
        prepare_command(self, command)
    }

    /// Makes a password of random bits.
    fn acl_genpass(&mut self, options: AclGenPassOptions) -> (r: PreparedCommand<'_, Self>)
        ensures
            r.command@ == command_of("ACL", seq![bytes_of("GENPASS")] + options.arg_list()),
            *r.executor == *old(self),
            *final(self) == *final(r.executor),
    {
        let ghost wanted = seq![bytes_of("GENPASS")] + options.arg_list();
        let command = cmd("ACL").arg("GENPASS").arg(options);
        assert(command@.args =~= wanted);
        prepare_command(self, command)
    }

    /// Lists the rules of an ACL user.
    fn acl_getuser<U: IntoArgs>(&mut self, username: U) -> (r: PreparedCommand<'_, Self>)
        ensures
            r.command@ == command_of("ACL", seq![bytes_of("GETUSER")] + username.arg_list()),
            *r.executor == *old(self),
            *final(self) == *final(r.executor),
    {
        let ghost wanted = seq![bytes_of("GETUSER")] + username.arg_list();
        let command = cmd("ACL").arg("GETUSER").arg(username);
        assert(command@.args =~= wanted);
        prepare_command(self, command)
    }

    /// Lists the ACL rules that are in force.
    fn acl_list(&mut self) -> (r: PreparedCommand<'_, Self>)
        ensures
            r.command@ == command_of("ACL", seq![bytes_of("LIST")]),
            *r.executor == *old(self),
            *final(self) == *final(r.executor),
    {
        let ghost wanted = seq![bytes_of("LIST")];
        let command = cmd("ACL").arg("LIST");
        assert(command@.args =~= wanted);
        prepare_command(self, command)
    }

    /// Loads the ACL rules anew from the ACL file.
    fn acl_load(&mut self) -> (r: PreparedCommand<'_, Self>)
        ensures
            r.command@ == command_of("ACL", seq![bytes_of("LOAD")]),
            *r.executor == *old(self),
            *final(self) == *final(r.executor),
    {
        let ghost wanted = seq![bytes_of("LOAD")];
        let command = cmd("ACL").arg("LOAD");
        assert(command@.args =~= wanted);
        prepare_command(self, command)
    }

    /// Lists the latest ACL security events.
    fn acl_log(&mut self, options: AclLogOptions) -> (r: PreparedCommand<'_, Self>)
        ensures
            r.command@ == command_of("ACL", seq![bytes_of("LOG")] + options.arg_list()),
            *r.executor == *old(self),
            *final(self) == *final(r.executor),
    {
        let ghost wanted = seq![bytes_of("LOG")] + options.arg_list();
        let command = cmd("ACL").arg("LOG").arg(options);
        assert(command@.args =~= wanted);
        prepare_command(self, command)
    }

    /// Saves the ACL rules to the ACL file.
    fn acl_save(&mut self) -> (r: PreparedCommand<'_, Self>)
        ensures
            r.command@ == command_of("ACL", seq![bytes_of("SAVE")]),
            *r.executor == *old(self),
            *final(self) == *final(r.executor),
    {
        let ghost wanted = seq![bytes_of("SAVE")];
        let command = cmd("ACL").arg("SAVE");
        assert(command@.args =~= wanted);
        prepare_command(self, command)
    }

    /// Creates an ACL user or changes its rules.
    fn acl_setuser<U: IntoArgs, R: IntoArgs>(&mut self, username: U, rules: R) -> (r:
        PreparedCommand<'_, Self>)
        ensures
            r.command@ == command_of(
                "ACL",
                seq![bytes_of("SETUSER")] + username.arg_list() + rules.arg_list(),
            ),
            *r.executor == *old(self),
            *final(self) == *final(r.executor),
    {
        let ghost wanted = seq![bytes_of("SETUSER")] + username.arg_list() + rules.arg_list();
        let command = cmd("ACL").arg("SETUSER").arg(username).arg(rules);
        assert(command@.args =~= wanted);
        prepare_command(self, command)
    }

    /// Lists the names of the ACL users.
    fn acl_users(&mut self) -> (r: PreparedCommand<'_, Self>)
        ensures
            r.command@ == command_of("ACL", seq![bytes_of("USERS")]),
            *r.executor == *old(self),
            *final(self) == *final(r.executor),
    {
        let ghost wanted = seq![bytes_of("USERS")];
        let command = cmd("ACL").arg("USERS");
        assert(command@.args =~= wanted);
        prepare_command(self, command)
    }

    /// Names the user of the connection.
    fn acl_whoami(&mut self) -> (r: PreparedCommand<'_, Self>)
        ensures
            r.command@ == command_of("ACL", seq![bytes_of("WHOAMI")]),
            *r.executor == *old(self),
            *final(self) == *final(r.executor),
    {
        let ghost wanted = seq![bytes_of("WHOAMI")];
        let command = cmd("ACL").arg("WHOAMI");
        assert(command@.args =~= wanted);
        prepare_command(self, command)
    }

    /// Lists what the server knows of every command.
    fn command(&mut self) -> (r: PreparedCommand<'_, Self>)
        ensures
            r.command@ == command_of("COMMAND", Seq::empty()),
            *r.executor == *old(self),
            *final(self) == *final(r.executor),
    {
        let ghost wanted = Seq::empty();
        let command = cmd("COMMAND");
        assert(command@.args =~= wanted);
        prepare_command(self, command)
    }

    /// Counts the commands of the server.
    fn command_count(&mut self) -> (r: PreparedCommand<'_, Self>)
        ensures
            r.command@ == command_of("COMMAND", seq![bytes_of("COUNT")]),
            *r.executor == *old(self),
            *final(self) == *final(r.executor),
    {
        let ghost wanted = seq![bytes_of("COUNT")];
        let command = cmd("COMMAND").arg("COUNT");
        assert(command@.args =~= wanted);
        prepare_command(self, command)
    }

    /// Lists the documentation of commands.
    fn command_docs<N: IntoArgs>(&mut self, command_names: N) -> (r: PreparedCommand<'_, Self>)
        ensures
            r.command@ == command_of("COMMAND", seq![bytes_of("DOCS")] + command_names.arg_list()),
            *r.executor == *old(self),
            *final(self) == *final(r.executor),
    {
        let ghost wanted = seq![bytes_of("DOCS")] + command_names.arg_list();
        let command = cmd("COMMAND").arg("DOCS").arg(command_names);
        assert(command@.args =~= wanted);
        prepare_command(self, command)
    }

    /// Finds the keys of a full command.
    fn command_getkeys<A: IntoArgs>(&mut self, args: A) -> (r: PreparedCommand<'_, Self>)
        ensures
            r.command@ == command_of("COMMAND", seq![bytes_of("GETKEYS")] + args.arg_list()),
            *r.executor == *old(self),
            *final(self) == *final(r.executor),
    {
        let ghost wanted = seq![bytes_of("GETKEYS")] + args.arg_list();
        let command = cmd("COMMAND").arg("GETKEYS").arg(args);
        assert(command@.args =~= wanted);
        prepare_command(self, command)
    }

    /// Finds the keys of a full command and what each is used for.
    fn command_getkeysandflags<A: IntoArgs>(&mut self, args: A) -> (r: PreparedCommand<'_, Self>)
        ensures
            r.command@ == command_of(
                "COMMAND",
                seq![bytes_of("GETKEYSANDFLAGS")] + args.arg_list(),
            ),
            *r.executor == *old(self),
            *final(self) == *final(r.executor),
    {
        let ghost wanted = seq![bytes_of("GETKEYSANDFLAGS")] + args.arg_list();
        let command = cmd("COMMAND").arg("GETKEYSANDFLAGS").arg(args);
        assert(command@.args =~= wanted);
        prepare_command(self, command)
    }

    /// Lists what the server knows of some commands.
    fn command_info<N: IntoArgs>(&mut self, command_names: N) -> (r: PreparedCommand<'_, Self>)
        ensures
            r.command@ == command_of("COMMAND", seq![bytes_of("INFO")] + command_names.arg_list()),
            *r.executor == *old(self),
            *final(self) == *final(r.executor),
    {
        let ghost wanted = seq![bytes_of("INFO")] + command_names.arg_list();
        let command = cmd("COMMAND").arg("INFO").arg(command_names);
        assert(command@.args =~= wanted);
        prepare_command(self, command)
    }

    /// Lists the names of the commands of the server.
    fn command_list(&mut self, options: CommandListOptions) -> (r: PreparedCommand<'_, Self>)
        ensures
            r.command@ == command_of("COMMAND", seq![bytes_of("LIST")] + options.arg_list()),
            *r.executor == *old(self),
            *final(self) == *final(r.executor),
    {
        let ghost wanted = seq![bytes_of("LIST")] + options.arg_list();
        let command = cmd("COMMAND").arg("LIST").arg(options);
        assert(command@.args =~= wanted);
        prepare_command(self, command)
    }

    /// Reads parameters of the configuration.
    fn config_get<P: IntoArgs>(&mut self, params: P) -> (r: PreparedCommand<'_, Self>)
        ensures
            r.command@ == command_of("CONFIG", seq![bytes_of("GET")] + params.arg_list()),
            *r.executor == *old(self),
            *final(self) == *final(r.executor),
    {
        let ghost wanted = seq![bytes_of("GET")] + params.arg_list();
        let command = cmd("CONFIG").arg("GET").arg(params);
        assert(command@.args =~= wanted);
        prepare_command(self, command)
    }

    /// Resets the statistics that `INFO` reports.
    fn config_resetstat(&mut self) -> (r: PreparedCommand<'_, Self>)
        ensures
            r.command@ == command_of("CONFIG", seq![bytes_of("RESETSTAT")]),
            *r.executor == *old(self),
            *final(self) == *final(r.executor),
    {
        let ghost wanted = seq![bytes_of("RESETSTAT")];
        let command = cmd("CONFIG").arg("RESETSTAT");
        assert(command@.args =~= wanted);
        prepare_command(self, command)
    }

    /// Writes the configuration in force to the configuration file.
    fn config_rewrite(&mut self) -> (r: PreparedCommand<'_, Self>)
        ensures
            r.command@ == command_of("CONFIG", seq![bytes_of("REWRITE")]),
            *r.executor == *old(self),
            *final(self) == *final(r.executor),
    {
        let ghost wanted = seq![bytes_of("REWRITE")];
        let command = cmd("CONFIG").arg("REWRITE");
        assert(command@.args =~= wanted);
        prepare_command(self, command)
    }

    /// Sets parameters of the configuration.
    fn config_set<C: IntoArgs>(&mut self, configs: C) -> (r: PreparedCommand<'_, Self>)
        ensures
            r.command@ == command_of("CONFIG", seq![bytes_of("SET")] + configs.arg_list()),
            *r.executor == *old(self),
            *final(self) == *final(r.executor),
    {
        let ghost wanted = seq![bytes_of("SET")] + configs.arg_list();
        let command = cmd("CONFIG").arg("SET").arg(configs);
        assert(command@.args =~= wanted);
        prepare_command(self, command)
    }

    /// Counts the keys of the database.
    fn dbsize(&mut self) -> (r: PreparedCommand<'_, Self>)
        ensures
            r.command@ == command_of("DBSIZE", Seq::empty()),
            *r.executor == *old(self),
            *final(self) == *final(r.executor),
    {
        let ghost wanted = Seq::empty();
        let command = cmd("DBSIZE");
        assert(command@.args =~= wanted);
        prepare_command(self, command)
    }

    /// Starts a failover from the master to one of its replicas.
    fn failover(&mut self, options: FailOverOptions) -> (r: PreparedCommand<'_, Self>)
        ensures
            r.command@ == command_of("FAILOVER", options.arg_list()),
            *r.executor == *old(self),
            *final(self) == *final(r.executor),
    {
        let ghost wanted = options.arg_list();
        let command = cmd("FAILOVER").arg(options);
        assert(command@.args =~= wanted);
        prepare_command(self, command)
    }

    /// Deletes all the keys of the database.
    fn flushdb(&mut self, flushing_mode: FlushingMode) -> (r: PreparedCommand<'_, Self>)
        ensures
            r.command@ == command_of("FLUSHDB", flushing_mode.arg_list()),
            *r.executor == *old(self),
            *final(self) == *final(r.executor),
    {
        let ghost wanted = flushing_mode.arg_list();
        let command = cmd("FLUSHDB").arg(flushing_mode);
        assert(command@.args =~= wanted);
        prepare_command(self, command)
    }

    /// Deletes all the keys of all the databases.
    fn flushall(&mut self, flushing_mode: FlushingMode) -> (r: PreparedCommand<'_, Self>)
        ensures
            r.command@ == command_of("FLUSHALL", flushing_mode.arg_list()),
            *r.executor == *old(self),
            *final(self) == *final(r.executor),
    {
        let ghost wanted = flushing_mode.arg_list();
        let command = cmd("FLUSHALL").arg(flushing_mode);
        assert(command@.args =~= wanted);
        prepare_command(self, command)
    }

    /// Reports on the state of the server.
    fn info<S: IntoArgs>(&mut self, sections: S) -> (r: PreparedCommand<'_, Self>)
        ensures
            r.command@ == command_of("INFO", sections.arg_list()),
            *r.executor == *old(self),
            *final(self) == *final(r.executor),
    {
        let ghost wanted = sections.arg_list();
        let command = cmd("INFO").arg(sections);
        assert(command@.args =~= wanted);
        prepare_command(self, command)
    }

    /// Tells when the database was last saved.
    fn lastsave(&mut self) -> (r: PreparedCommand<'_, Self>)
        ensures
            r.command@ == command_of("LASTSAVE", Seq::empty()),
            *r.executor == *old(self),
            *final(self) == *final(r.executor),
    {
        let ghost wanted = Seq::empty();
        let command = cmd("LASTSAVE");
        assert(command@.args =~= wanted);
        prepare_command(self, command)
    }

    /// Tells the time of the server.
    fn time(&mut self) -> (r: PreparedCommand<'_, Self>)
        ensures
            r.command@ == command_of("TIME", Seq::empty()),
            *r.executor == *old(self),
            *final(self) == *final(r.executor),
    {
        let ghost wanted = Seq::empty();
        let command = cmd("TIME");
        assert(command@.args =~= wanted);
        prepare_command(self, command)
    }
}

impl ServerCommands for Pipeline {

}

impl ServerCommands for Transaction {

}

impl ServerCommands for Client {

}

} // verus!
