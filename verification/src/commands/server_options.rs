//! Options of the server management commands.

use vstd::prelude::*;
use crate::resp::command::{CommandArgs, IntoArgs};
use crate::resp::decimal::decimal;
use crate::resp::text::bytes_of;

verus! {

/// How a database is flushed.
pub enum FlushingMode {
    /// As the server is configured.
    Default,
    /// In the background.
    Async,
    /// At once.
    Sync,
}

impl Default for FlushingMode {
    fn default() -> (r: FlushingMode)
        ensures
            r is Default,
    {
        FlushingMode::Default
    }
}

impl IntoArgs for FlushingMode {
    open spec fn arg_list(&self) -> Seq<Seq<u8>> {
        match *self {
            FlushingMode::Default => Seq::empty(),
            FlushingMode::Async => seq![bytes_of("ASYNC")],
            FlushingMode::Sync => seq![bytes_of("SYNC")],
        }
    }

    fn into_args(self, args: CommandArgs) -> (r: CommandArgs) {
        match self {
            FlushingMode::Default => {
                assert(args@ + Seq::<Seq<u8>>::empty() =~= args@);
                args
            },
            FlushingMode::Async => args.arg("ASYNC"),
            FlushingMode::Sync => args.arg("SYNC"),
        }
    }
}

/// Options of `ACL CAT`.
pub struct AclCatOptions {
    pub command_args: CommandArgs,
}

impl AclCatOptions {
    /// Lists the commands of the given category.
    pub fn category_name<C: IntoArgs>(self, category_name: C) -> (r: AclCatOptions)
        ensures
            r.command_args@ == self.command_args@ + category_name.arg_list(),
    {
        AclCatOptions { command_args: self.command_args.arg(category_name) }
    }
}

impl Default for AclCatOptions {
    fn default() -> (r: AclCatOptions)
        ensures
            r.command_args@ == Seq::<Seq<u8>>::empty(),
    {
        AclCatOptions { command_args: CommandArgs::default() }
    }
}

impl IntoArgs for AclCatOptions {
    open spec fn arg_list(&self) -> Seq<Seq<u8>> {
        self.command_args@
    }

    fn into_args(self, args: CommandArgs) -> (r: CommandArgs) {
        args.arg(self.command_args)
    }
}

/// Options of `ACL DRYRUN`.
pub struct AclDryRunOptions {
    pub command_args: CommandArgs,
}

impl AclDryRunOptions {
    /// Adds arguments of the command to try.
    pub fn arg<AA: IntoArgs>(self, args: AA) -> (r: AclDryRunOptions)
        ensures
            r.command_args@ == self.command_args@ + args.arg_list(),
    {
        AclDryRunOptions { command_args: self.command_args.arg(args) }
    }
}

impl Default for AclDryRunOptions {
    fn default() -> (r: AclDryRunOptions)
        ensures
            r.command_args@ == Seq::<Seq<u8>>::empty(),
    {
        AclDryRunOptions { command_args: CommandArgs::default() }
    }
}

impl IntoArgs for AclDryRunOptions {
    open spec fn arg_list(&self) -> Seq<Seq<u8>> {
        self.command_args@
    }

    fn into_args(self, args: CommandArgs) -> (r: CommandArgs) {
        args.arg(self.command_args)
    }
}

/// Options of `ACL GENPASS`.
pub struct AclGenPassOptions {
    pub command_args: CommandArgs,
}

impl AclGenPassOptions {
    /// The number of bits of the password.
    pub fn bits(self, bits: usize) -> (r: AclGenPassOptions)
        ensures
            r.command_args@ == self.command_args@.push(decimal(bits as int)),
    {
        let r = AclGenPassOptions { command_args: self.command_args.arg(bits) };
        assert(r.command_args@ =~= self.command_args@.push(decimal(bits as int)));
        r
    }
}

impl Default for AclGenPassOptions {
    fn default() -> (r: AclGenPassOptions)
        ensures
            r.command_args@ == Seq::<Seq<u8>>::empty(),
    {
        AclGenPassOptions { command_args: CommandArgs::default() }
    }
}

impl IntoArgs for AclGenPassOptions {
    open spec fn arg_list(&self) -> Seq<Seq<u8>> {
        self.command_args@
    }

    fn into_args(self, args: CommandArgs) -> (r: CommandArgs) {
        args.arg(self.command_args)
    }
}

/// Options of `ACL LOG`.
pub struct AclLogOptions {
    pub command_args: CommandArgs,
}

impl AclLogOptions {
    /// The number of entries to show.
    pub fn count(self, count: usize) -> (r: AclLogOptions)
        ensures
            r.command_args@ == self.command_args@.push(decimal(count as int)),
    {
        let r = AclLogOptions { command_args: self.command_args.arg(count) };
        assert(r.command_args@ =~= self.command_args@.push(decimal(count as int)));
        r
    }

    /// Clears the log.
    pub fn reset(self) -> (r: AclLogOptions)
        ensures
            r.command_args@ == self.command_args@.push(bytes_of("RESET")),
    {
        let r = AclLogOptions { command_args: self.command_args.arg("RESET") };
        assert(r.command_args@ =~= self.command_args@.push(bytes_of("RESET")));
        r
    }
}

impl Default for AclLogOptions {
    fn default() -> (r: AclLogOptions)
        ensures
            r.command_args@ == Seq::<Seq<u8>>::empty(),
    {
        AclLogOptions { command_args: CommandArgs::default() }
    }
}

impl IntoArgs for AclLogOptions {
    open spec fn arg_list(&self) -> Seq<Seq<u8>> {
        self.command_args@
    }

    fn into_args(self, args: CommandArgs) -> (r: CommandArgs) {
        args.arg(self.command_args)
    }
}

/// Options of `COMMAND LIST`.
pub struct CommandListOptions {
    pub command_args: CommandArgs,
}

impl CommandListOptions {
    /// Lists the commands of the given module.
    pub fn filter_by_module_name<M: IntoArgs>(self, module_name: M) -> (r: CommandListOptions)
        ensures
            r.command_args@ == self.command_args@ + seq![bytes_of("FILTERBY"), bytes_of("MODULE")]
                + module_name.arg_list(),
    {
        let ghost wanted = self.command_args@ + seq![bytes_of("FILTERBY"), bytes_of("MODULE")]
            + module_name.arg_list();
        let r = CommandListOptions {
            command_args: self.command_args.arg("FILTERBY").arg("MODULE").arg(module_name),
        };
        assert(r.command_args@ =~= wanted);
        r
    }

    /// Lists the commands of the given ACL category.
    pub fn filter_by_acl_category<C: IntoArgs>(self, category: C) -> (r: CommandListOptions)
        ensures
            r.command_args@ == self.command_args@ + seq![bytes_of("FILTERBY"), bytes_of("ACLCAT")]
                + category.arg_list(),
    {
        let ghost wanted = self.command_args@ + seq![bytes_of("FILTERBY"), bytes_of("ACLCAT")]
            + category.arg_list();
        let r = CommandListOptions {
            command_args: self.command_args.arg("FILTERBY").arg("ACLCAT").arg(category),
        };
        assert(r.command_args@ =~= wanted);
        r
    }

    /// Lists the commands whose name matches the given pattern.
    pub fn filter_by_pattern<P: IntoArgs>(self, pattern: P) -> (r: CommandListOptions)
        ensures
            r.command_args@ == self.command_args@ + seq![
                bytes_of("FILTERBY"),
                bytes_of("PATTERN"),
            ] + pattern.arg_list(),
    {
        let ghost wanted = self.command_args@ + seq![bytes_of("FILTERBY"), bytes_of("PATTERN")]
            + pattern.arg_list();
        let r = CommandListOptions {
            command_args: self.command_args.arg("FILTERBY").arg("PATTERN").arg(pattern),
        };
        assert(r.command_args@ =~= wanted);
        r
    }
}

impl Default for CommandListOptions {
    fn default() -> (r: CommandListOptions)
        ensures
            r.command_args@ == Seq::<Seq<u8>>::empty(),
    {
        CommandListOptions { command_args: CommandArgs::default() }
    }
}

impl IntoArgs for CommandListOptions {
    open spec fn arg_list(&self) -> Seq<Seq<u8>> {
        self.command_args@
    }

    fn into_args(self, args: CommandArgs) -> (r: CommandArgs) {
        args.arg(self.command_args)
    }
}

/// Options of `FAILOVER`.
pub struct FailOverOptions {
    pub command_args: CommandArgs,
}

impl FailOverOptions {
    /// Names the replica to fail over to.
    pub fn to<H: IntoArgs>(self, host: H, port: u16) -> (r: FailOverOptions)
        ensures
            r.command_args@ == self.command_args@ + seq![bytes_of("TO")] + host.arg_list() + seq![
                decimal(port as int),
            ],
    {
        let ghost wanted = self.command_args@ + seq![bytes_of("TO")] + host.arg_list() + seq![
            decimal(port as int),
        ];
        let r = FailOverOptions { command_args: self.command_args.arg("TO").arg(host).arg(port) };
        assert(r.command_args@ =~= wanted);
        r
    }

    /// The longest time, in milliseconds, that the master waits for the
    /// replica to catch up.
    pub fn timeout(self, milliseconds: u64) -> (r: FailOverOptions)
        ensures
            r.command_args@ == self.command_args@ + seq![
                bytes_of("TIMEOUT"),
                decimal(milliseconds as int),
            ],
    {
        let r = FailOverOptions {
            command_args: self.command_args.arg("TIMEOUT").arg(milliseconds),
        };
        assert(r.command_args@ =~= self.command_args@ + seq![
            bytes_of("TIMEOUT"),
            decimal(milliseconds as int),
        ]);
        r
    }

    /// Fails over when the time is up, in place of rolling back.
    pub fn force(self) -> (r: FailOverOptions)
        ensures
            r.command_args@ == self.command_args@.push(bytes_of("FORCE")),
    {
        let r = FailOverOptions { command_args: self.command_args.arg("FORCE") };
        assert(r.command_args@ =~= self.command_args@.push(bytes_of("FORCE")));
        r
    }

    /// Aborts a failover that is under way.
    pub fn abort(self) -> (r: FailOverOptions)
        ensures
            r.command_args@ == self.command_args@.push(bytes_of("ABORT")),
    {
        let r = FailOverOptions { command_args: self.command_args.arg("ABORT") };
        assert(r.command_args@ =~= self.command_args@.push(bytes_of("ABORT")));
        r
    }
}

impl Default for FailOverOptions {
    fn default() -> (r: FailOverOptions)
        ensures
            r.command_args@ == Seq::<Seq<u8>>::empty(),
    {
        FailOverOptions { command_args: CommandArgs::default() }
    }
}

impl IntoArgs for FailOverOptions {
    open spec fn arg_list(&self) -> Seq<Seq<u8>> {
        self.command_args@
    }

    fn into_args(self, args: CommandArgs) -> (r: CommandArgs) {
        args.arg(self.command_args)
    }
}

/// A section of what `INFO` reports.
pub enum InfoSection {
    Server,
    Clients,
    Memory,
    Persistence,
    Stats,
    Replication,
    Cpu,
    Commandstats,
    Latencystats,
    Cluster,
    Keyspace,
    Modules,
    Errorstats,
    All,
    Default,
    Everything,
}

impl InfoSection {
    /// The name of the section as the server knows it.
    pub open spec fn name(&self) -> Seq<u8> {
        match *self {
            InfoSection::Server => bytes_of("server"),
            InfoSection::Clients => bytes_of("clients"),
            InfoSection::Memory => bytes_of("memory"),
            InfoSection::Persistence => bytes_of("persistence"),
            InfoSection::Stats => bytes_of("stats"),
            InfoSection::Replication => bytes_of("replication"),
            InfoSection::Cpu => bytes_of("cpu"),
            InfoSection::Commandstats => bytes_of("commandstats"),
            InfoSection::Latencystats => bytes_of("latencystats"),
            InfoSection::Cluster => bytes_of("cluster"),
            InfoSection::Keyspace => bytes_of("keyspace"),
            InfoSection::Modules => bytes_of("modules"),
            InfoSection::Errorstats => bytes_of("errorstats"),
            InfoSection::All => bytes_of("all"),
            InfoSection::Default => bytes_of("default"),
            InfoSection::Everything => bytes_of("everything"),
        }
    }
}

impl IntoArgs for InfoSection {
    open spec fn arg_list(&self) -> Seq<Seq<u8>> {
        seq![self.name()]
    }

    fn into_args(self, args: CommandArgs) -> (r: CommandArgs) {
        args.arg(
            match self {
                InfoSection::Server => "server",
                InfoSection::Clients => "clients",
                InfoSection::Memory => "memory",
                InfoSection::Persistence => "persistence",
                InfoSection::Stats => "stats",
                InfoSection::Replication => "replication",
                InfoSection::Cpu => "cpu",
                InfoSection::Commandstats => "commandstats",
                InfoSection::Latencystats => "latencystats",
                InfoSection::Cluster => "cluster",
                InfoSection::Keyspace => "keyspace",
                InfoSection::Modules => "modules",
                InfoSection::Errorstats => "errorstats",
                InfoSection::All => "all",
                InfoSection::Default => "default",
                InfoSection::Everything => "everything",
            },
        )
    }
}

} // verus!
