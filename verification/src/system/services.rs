// systemd service operations, what systemctl reports, and the operations log.

use vstd::prelude::*;

use crate::config::types::views_of;
use crate::process::command::CommandOutput;
use crate::strmap::StrSet;
use crate::text::{
    cat2, first_word, first_word_of, join_strings, joined, lines_of, push_str, seq_ends_with,
    spec_lines, string_from, strip_suffix, trim, trim_str,
};

verus! {

#[derive(Debug, Clone, Copy, PartialEq, Eq, Structural)]
pub enum ServiceAction {
    Enable,
    Disable,
}

pub open spec fn service_action_str(a: ServiceAction) -> Seq<char> {
    match a {
        ServiceAction::Enable => "enable"@,
        ServiceAction::Disable => "disable"@,
    }
}

impl ServiceAction {
    pub fn as_str(self) -> (s: &'static str)
        ensures
            s@ == service_action_str(self),
    {
        match self {
            ServiceAction::Enable => "enable",
            ServiceAction::Disable => "disable",
        }
    }
}

/// One service change to carry out.
#[derive(Debug)]
pub struct ServiceOperation {
    pub action: ServiceAction,
    pub service: String,
}

pub struct ServiceOperationView {
    pub action: ServiceAction,
    pub service: Seq<char>,
}

impl View for ServiceOperation {
    type V = ServiceOperationView;

    open spec fn view(&self) -> ServiceOperationView {
        ServiceOperationView { action: self.action, service: self.service@ }
    }
}

/// Something that enables and disables services.
pub trait ServiceExecutor {
    /// Readies the executor before any change; by default there is nothing to ready and
    /// it succeeds.
    fn prepare(&mut self) -> (r: Result<(), String>)
        default_ensures
            r == Ok::<(), String>(()),
    {
        Ok(())
    }

    fn enable(&mut self, service: &str) -> Result<(), String>;

    fn disable(&mut self, service: &str) -> Result<(), String>;
}

/// An executor that only records what it was asked to do.
#[derive(Debug)]
pub struct RecordingServiceExecutor {
    operations: Vec<ServiceOperation>,
}

impl RecordingServiceExecutor {
    pub closed spec fn recorded(&self) -> Seq<ServiceOperationView> {
        views_of(self.operations@)
    }

    pub fn new() -> (e: Self)
        ensures
            e.recorded() == Seq::<ServiceOperationView>::empty(),
    {
        let e = RecordingServiceExecutor { operations: Vec::new() };
        assert(views_of(e.operations@) =~= Seq::<ServiceOperationView>::empty());
        e
    }

    /// The operations recorded, in the order they were asked for.
    pub fn operations(&self) -> (ops: &[ServiceOperation])
        ensures
            views_of(ops@) == self.recorded(),
    {
        self.operations.as_slice()
    }

    fn record(&mut self, action: ServiceAction, service: &str)
        ensures
            final(self).recorded() == old(self).recorded().push(
                ServiceOperationView { action, service: service@ },
            ),
    {
        let ghost r0 = views_of(self.operations@);
        let op = ServiceOperation { action, service: string_from(service) };
        let ghost ov = op@;
        self.operations.push(op);
        assert(views_of(self.operations@) =~= r0.push(ov));
    }
}

impl Default for RecordingServiceExecutor {
    fn default() -> (e: Self)
        ensures
            e.recorded() == Seq::<ServiceOperationView>::empty(),
    {
        RecordingServiceExecutor::new()
    }
}

impl ServiceExecutor for RecordingServiceExecutor {
    fn enable(&mut self, service: &str) -> (r: Result<(), String>)
        ensures
            r is Ok,
            final(self).recorded() == old(self).recorded().push(
                ServiceOperationView { action: ServiceAction::Enable, service: service@ },
            ),
    {
        self.record(ServiceAction::Enable, service);
        Ok(())
    }

    fn disable(&mut self, service: &str) -> (r: Result<(), String>)
        ensures
            r is Ok,
            final(self).recorded() == old(self).recorded().push(
                ServiceOperationView { action: ServiceAction::Disable, service: service@ },
            ),
    {
        self.record(ServiceAction::Disable, service);
        Ok(())
    }
}

/// What a `systemctl` run came to: success on exit status 0, else an error that names the
/// command and carries its trimmed standard error, if any.
pub open spec fn spec_systemctl_outcome(args: Seq<Seq<char>>, output: Result<CommandOutput, String>) -> Result<
    (),
    Seq<char>,
> {
    match output {
        Err(e) => Err(e@),
        Ok(o) => if o.status_code == Some(0i32) {
            Ok(())
        } else if trim(o.stderr@).len() == 0 {
            Err("systemctl "@ + joined(args, " "@) + " failed"@)
        } else {
            Err("systemctl "@ + joined(args, " "@) + " failed: "@ + trim(o.stderr@))
        },
    }
}

/// The outcome of running `systemctl <args>`, given what running it gave.
pub fn systemctl_outcome(args: &Vec<String>, output: Result<CommandOutput, String>) -> (r: Result<(), String>)
    ensures
        match r {
            Ok(()) => spec_systemctl_outcome(args@.map_values(|x: String| x@), output) == Ok::<
                (),
                Seq<char>,
            >(()),
            Err(e) => spec_systemctl_outcome(args@.map_values(|x: String| x@), output) == Err::<
                (),
                Seq<char>,
            >(e@),
        },
{
    let out = match output {
        Err(e) => {
            return Err(e);
        },
        Ok(o) => o,
    };
    if out.succeeded() {
        return Ok(());
    }
    let stderr = trim_str(out.stderr.as_str());
    let mut message = cat2("systemctl ", join_strings(args, " ").as_str());
    if stderr.as_str().is_empty() {
        push_str(&mut message, " failed");
    } else {
        push_str(&mut message, " failed: ");
        push_str(&mut message, stderr.as_str());
    }
    Err(message)
}

/// The units `systemctl list-unit-files --state=enabled` lists: each line's first word,
/// and for a `.service` unit also its name without the suffix.
pub open spec fn listed_units(ls: Seq<Seq<char>>) -> Seq<Seq<char>>
    decreases ls.len(),
{
    if ls.len() == 0 {
        Seq::<Seq<char>>::empty()
    } else {
        listed_units(ls.drop_last()) + match first_word(ls.last()) {
            None => Seq::<Seq<char>>::empty(),
            Some(u) => if seq_ends_with(u, ".service"@) {
                seq![u, u.take(u.len() - 8)]
            } else {
                seq![u]
            },
        }
    }
}

/// The enabled services that the listing reported, or none when it failed.
pub fn read_enabled_services(output: Result<CommandOutput, String>) -> (services: StrSet)
    ensures
        services.wf(),
        forall|s: Seq<char>| #[trigger] services.has(s) <==> match output {
            Ok(o) => o.status_code == Some(0i32) && listed_units(spec_lines(o.stdout@)).contains(s),
            Err(_) => false,
        },
{
    let mut services = StrSet::new();
    let out = match output {
        Ok(o) => o,
        Err(_) => {
            return services;
        },
    };
    if !out.succeeded() {
        return services;
    }
    let lines = lines_of(out.stdout.as_str());
    let ghost ls = lines@.map_values(|x: String| x@);
    let mut i: usize = 0;
    assert(ls.take(0) =~= Seq::<Seq<char>>::empty());
    while i < lines.len()
        invariant
            i <= lines.len(),
            ls == lines@.map_values(|x: String| x@),
            services.wf(),
            forall|s: Seq<char>| #[trigger] services.has(s) <==> listed_units(ls.take(i as int)).contains(s),
        decreases lines.len() - i,
    {
        assert(ls.take(i + 1).drop_last() =~= ls.take(i as int));
        assert(ls.take(i + 1).last() == lines@[i as int]@);
        let ghost prev = listed_units(ls.take(i as int));
        match first_word_of(lines[i].as_str()) {
            None => {
                assert(listed_units(ls.take(i + 1)) =~= prev);
            },
            Some(unit) => {
                let ghost uv = unit@;
                let stripped = strip_suffix(unit.as_str(), ".service");
                let ghost b0 = services;
                services.insert(unit);
                let ghost b1 = services;
                proof {
                    reveal_strlit(".service");
                }
                match stripped {
                    Some(name) => {
                        let ghost nv = name@;
                        services.insert(name);
                        assert(listed_units(ls.take(i + 1)) =~= prev.push(uv).push(nv));
                        assert forall|s: Seq<char>| #[trigger] services.has(s) <==> listed_units(
                            ls.take(i + 1),
                        ).contains(s) by {
                            crate::text::lemma_contains_push(prev, uv, s);
                            crate::text::lemma_contains_push(prev.push(uv), nv, s);
                            assert(b0.has(s) <==> prev.contains(s));
                            assert(b1.has(s) <==> (b0.has(s) || s == uv));
                        }
                    },
                    None => {
                        assert(listed_units(ls.take(i + 1)) =~= prev.push(uv));
                        assert forall|s: Seq<char>| #[trigger] services.has(s) <==> listed_units(
                            ls.take(i + 1),
                        ).contains(s) by {
                            crate::text::lemma_contains_push(prev, uv, s);
                            assert(b0.has(s) <==> prev.contains(s));
                        }
                    },
                }
            },
        }
        i += 1;
    }
    assert(ls.take(lines.len() as int) =~= ls);
    services
}

/// `<action> <service>` per operation.
pub open spec fn service_log(ops: Seq<ServiceOperationView>) -> Seq<char>
    decreases ops.len(),
{
    if ops.len() == 0 {
        Seq::<char>::empty()
    } else {
        service_log(ops.drop_last()) + service_action_str(ops.last().action) + " "@ + ops.last().service
            + "\n"@
    }
}

/// The text of the service operations log.
pub fn render_service_operations_log(operations: &[ServiceOperation]) -> (out: String)
    ensures
        out@ == service_log(views_of(operations@)),
{
    let ghost ops = views_of(operations@);
    let mut out = String::new();
    let mut i: usize = 0;
    assert(ops.take(0) =~= Seq::<ServiceOperationView>::empty());
    while i < operations.len()
        invariant
            i <= operations.len(),
            ops == views_of(operations@),
            out@ == service_log(ops.take(i as int)),
        decreases operations.len() - i,
    {
        assert(ops.take(i + 1).drop_last() =~= ops.take(i as int));
        assert(ops.take(i + 1).last() == operations@[i as int]@);
        push_str(&mut out, operations[i].action.as_str());
        push_str(&mut out, " ");
        push_str(&mut out, operations[i].service.as_str());
        push_str(&mut out, "\n");
        assert(out@ =~= service_log(ops.take(i + 1)));
        i += 1;
    }
    assert(ops.take(operations.len() as int) =~= ops);
    out
}

} // verus!
