//! The syscall dispatch of a VM session, as decisions: each message from the
//! guest becomes a step for the host to carry out, and the store's outcome
//! of a read or a write becomes the reply that goes back.
use vstd::prelude::*;
use crate::label::{
    ComponentModel, DCLabel, all_finite, label_wf, lemma_label_finite,
    lemma_lub_all_rises, lemma_lub_all_same_labels, lub_all, lub_spec, public_spec,
};

verus! {

/// A message from the guest.
pub enum Syscall {
    /// The function's result; it ends the session.
    Response { payload: String },
    ReadKey { key: Vec<u8> },
    WriteKey { key: Vec<u8>, value: Vec<u8> },
    GetCurrentLabel,
    TaintWithLabel { label: DCLabel },
    /// A message whose variant is absent or not known to the host.
    Unknown,
}

/// A reply from the host to the guest.
pub enum Reply {
    ReadKeyResponse { value: Option<Vec<u8>> },
    WriteKeyResponse { success: bool },
    DcLabel { label: DCLabel },
}

/// What the host does next.
pub enum Step {
    /// The session is over and `payload` is its result; nothing is sent.
    Finish { payload: String },
    /// Send `reply` to the guest.
    Send { reply: Reply },
    /// Read `key` from the store, then hand the outcome to `store_read`.
    Read { key: Vec<u8> },
    /// Write `value` under `key` in the store, then hand the outcome to
    /// `store_written`.
    Write { key: Vec<u8>, value: Vec<u8> },
    /// Send nothing and read the next message.
    Ignore,
}

/// Where a session stands between messages.
#[derive(PartialEq, Eq, Structural, Clone, Copy, Debug)]
pub enum Phase {
    /// Ready for the guest's next message.
    Idle,
    /// A reply to a read is owed once the store has answered.
    AwaitingRead,
    /// A reply to a write is owed once the store has answered.
    AwaitingWrite,
    /// The guest has sent its result.
    Finished,
}

/// The host-side state of one VM: its identity and the label of the
/// execution it runs.
pub struct Vm {
    id: usize,
    memory: usize,
    function_name: String,
    current_label: DCLabel,
    phase: Phase,
    initial: Ghost<(ComponentModel, ComponentModel)>,
    taints: Ghost<Seq<(ComponentModel, ComponentModel)>>,
}

/// The policy on the guest's reads and writes of the store under the
/// execution's label. The label is tracked and advertised but not enforced:
/// every access is allowed.
pub open spec fn access_allowed(label: (ComponentModel, ComponentModel), key: Seq<u8>) -> bool {
    true
}

impl Vm {
    /// The VM's id.
    pub closed spec fn spec_id(&self) -> usize {
        self.id
    }

    /// The VM's memory in MiB.
    pub closed spec fn spec_memory(&self) -> usize {
        self.memory
    }

    /// The name of the function the VM runs.
    pub closed spec fn spec_function_name(&self) -> Seq<char> {
        self.function_name@
    }

    /// The label of the execution.
    pub closed spec fn label(&self) -> (ComponentModel, ComponentModel) {
        self.current_label@
    }

    /// The label the VM started with.
    pub closed spec fn initial_label(&self) -> (ComponentModel, ComponentModel) {
        self.initial@
    }

    /// The labels the guest has tainted the execution with, in order.
    pub closed spec fn taints(&self) -> Seq<(ComponentModel, ComponentModel)> {
        self.taints@
    }

    /// Where the session stands.
    pub closed spec fn phase_spec(&self) -> Phase {
        self.phase
    }

    /// The state's invariant: the label is well formed, and it is the start
    /// label joined in turn with each label the guest has tainted with.
    pub closed spec fn wf(&self) -> bool {
        &&& label_wf(self.current_label@)
        &&& label_wf(self.initial@)
        &&& all_finite(self.taints@)
        &&& self.current_label@ == lub_all(self.initial@, self.taints@)
    }

    /// A fresh VM with the public label, ready for the guest's first message.
    pub fn new(id: usize, memory: usize, function_name: String) -> (r: Vm)
        ensures
            r.wf(),
            r.spec_id() == id,
            r.spec_memory() == memory,
            r.spec_function_name() == function_name@,
            r.label() == public_spec(),
            r.initial_label() == public_spec(),
            r.taints().len() == 0,
            r.phase_spec() == Phase::Idle,
    {
        let r = Vm {
            id,
            memory,
            function_name,
            current_label: DCLabel::public(),
            phase: Phase::Idle,
            initial: Ghost(public_spec()),
            taints: Ghost(Seq::empty()),
        };
        assert(r.current_label@.0 matches Some(f) ==> f =~= Set::empty());
        r
    }

    /// A VM with id 0 and no function, for tests of what drives VMs.
    pub fn new_dummy(memory: usize) -> (r: Vm)
        ensures
            r.wf(),
            r.spec_id() == 0,
            r.spec_memory() == memory,
            r.spec_function_name().len() == 0,
            r.label() == public_spec(),
            r.initial_label() == public_spec(),
            r.taints().len() == 0,
            r.phase_spec() == Phase::Idle,
    {
        Vm::new(0, memory, String::new())
    }

    /// The VM's id.
    pub fn id(&self) -> (r: usize)
        ensures
            r == self.spec_id(),
    {
        self.id
    }

    /// The VM's memory in MiB.
    pub fn memory(&self) -> (r: usize)
        ensures
            r == self.spec_memory(),
    {
        self.memory
    }

    /// The name of the function the VM runs.
    pub fn function_name(&self) -> (r: &String)
        ensures
            r@ == self.spec_function_name(),
    {
        &self.function_name
    }

    /// Readies the VM for a new request once the last one has been answered;
    /// the label, and all else, is kept.
    pub fn begin_request(&mut self)
        requires
            old(self).phase_spec() == Phase::Idle || old(self).phase_spec() == Phase::Finished,
        ensures
            final(self).phase_spec() == Phase::Idle,
            final(self).wf() == old(self).wf(),
            final(self).label() == old(self).label(),
            final(self).initial_label() == old(self).initial_label(),
            final(self).taints() == old(self).taints(),
            final(self).spec_id() == old(self).spec_id(),
            final(self).spec_memory() == old(self).spec_memory(),
            final(self).spec_function_name() == old(self).spec_function_name(),
    {
        self.phase = Phase::Idle;
    }

    /// The label of the execution.
    pub fn current_label(&self) -> (r: &DCLabel)
        ensures
            r@ == self.label(),
    {
        &self.current_label
    }

    /// Where the session stands.
    pub fn phase(&self) -> (r: Phase)
        ensures
            r == self.phase_spec(),
    {
        self.phase
    }

    /// Whether the execution's label lets the guest read or write `key`.
    pub fn may_access(&self, key: &Vec<u8>) -> (r: bool)
        ensures
            r == access_allowed(self.label(), key@),
    {
        true
    }

    /// Decides what to do with the guest's next message. Messages are taken
    /// one at a time: a new one only once every reply owed has been sent.
    /// `Response` gets no reply and ends the session; an unknown message is
    /// skipped without a reply; a read or a write is answered once the store
    /// has been asked, or at once as absent or failed where the label does
    /// not allow it; a label request, or a taint, is answered at once, a
    /// taint after the label has been raised to its join with the given one.
    pub fn on_syscall(&mut self, sc: Syscall) -> (r: Step)
        requires
            old(self).wf(),
            old(self).phase_spec() == Phase::Idle,
        ensures
            final(self).wf(),
            final(self).spec_id() == old(self).spec_id(),
            final(self).spec_memory() == old(self).spec_memory(),
            final(self).spec_function_name() == old(self).spec_function_name(),
            final(self).initial_label() == old(self).initial_label(),
            match sc {
                Syscall::Response { payload } => {
                    &&& r matches Step::Finish { payload: p } && p@ == payload@
                    &&& final(self).phase_spec() == Phase::Finished
                    &&& final(self).label() == old(self).label()
                    &&& final(self).taints() == old(self).taints()
                },
                Syscall::ReadKey { key } => {
                    &&& if access_allowed(old(self).label(), key@) {
                        &&& r matches Step::Read { key: k } && k@ == key@
                        &&& final(self).phase_spec() == Phase::AwaitingRead
                    } else {
                        &&& r matches Step::Send { reply: Reply::ReadKeyResponse { value: None } }
                        &&& final(self).phase_spec() == Phase::Idle
                    }
                    &&& final(self).label() == old(self).label()
                    &&& final(self).taints() == old(self).taints()
                },
                Syscall::WriteKey { key, value } => {
                    &&& if access_allowed(old(self).label(), key@) {
                        &&& r matches Step::Write { key: k, value: v } && k@ == key@ && v@
                            == value@
                        &&& final(self).phase_spec() == Phase::AwaitingWrite
                    } else {
                        &&& r matches Step::Send {
                            reply: Reply::WriteKeyResponse { success: false },
                        }
                        &&& final(self).phase_spec() == Phase::Idle
                    }
                    &&& final(self).label() == old(self).label()
                    &&& final(self).taints() == old(self).taints()
                },
                Syscall::GetCurrentLabel => {
                    &&& r matches Step::Send { reply: Reply::DcLabel { label: l } } && l@
                        == old(self).label()
                    &&& final(self).phase_spec() == Phase::Idle
                    &&& final(self).label() == old(self).label()
                    &&& final(self).taints() == old(self).taints()
                },
                Syscall::TaintWithLabel { label } => {
                    &&& final(self).label() == lub_spec(old(self).label(), label@)
                    &&& final(self).taints() == old(self).taints().push(label@)
                    &&& r matches Step::Send { reply: Reply::DcLabel { label: l } } && l@
                        == final(self).label()
                    &&& final(self).phase_spec() == Phase::Idle
                },
                Syscall::Unknown => {
                    &&& r is Ignore
                    &&& final(self).phase_spec() == Phase::Idle
                    &&& final(self).label() == old(self).label()
                    &&& final(self).taints() == old(self).taints()
                },
            },
    {
        match sc {
            Syscall::Response { payload } => {
                self.phase = Phase::Finished;
                Step::Finish { payload }
            },
            Syscall::ReadKey { key } => {
                if self.may_access(&key) {
                    self.phase = Phase::AwaitingRead;
                    Step::Read { key }
                } else {
                    Step::Send { reply: Reply::ReadKeyResponse { value: None } }
                }
            },
            Syscall::WriteKey { key, value } => {
                if self.may_access(&key) {
                    self.phase = Phase::AwaitingWrite;
                    Step::Write { key, value }
                } else {
                    Step::Send { reply: Reply::WriteKeyResponse { success: false } }
                }
            },
            Syscall::GetCurrentLabel => {
                Step::Send { reply: Reply::DcLabel { label: self.current_label.duplicate() } }
            },
            Syscall::TaintWithLabel { label } => {
                proof {
                    lemma_label_finite(&label);
                    assert(self.taints@.push(label@).drop_last() =~= self.taints@);
                }
                self.current_label = self.current_label.lub(&label);
                self.taints = Ghost(self.taints@.push(label@));
                Step::Send { reply: Reply::DcLabel { label: self.current_label.duplicate() } }
            },
            Syscall::Unknown => Step::Ignore,
        }
    }

    /// The reply to a read, from what the store returned for the key; an
    /// absent key, or a failed read, is `None`.
    pub fn store_read(&mut self, value: Option<Vec<u8>>) -> (r: Reply)
        requires
            old(self).phase_spec() == Phase::AwaitingRead,
        ensures
            r matches Reply::ReadKeyResponse { value: v } && v == value,
            final(self).phase_spec() == Phase::Idle,
            final(self).label() == old(self).label(),
            final(self).wf() == old(self).wf(),
            final(self).spec_id() == old(self).spec_id(),
            final(self).spec_memory() == old(self).spec_memory(),
            final(self).spec_function_name() == old(self).spec_function_name(),
            final(self).initial_label() == old(self).initial_label(),
            final(self).taints() == old(self).taints(),
    {
        self.phase = Phase::Idle;
        Reply::ReadKeyResponse { value }
    }

    /// The reply to a write, from whether the store took it.
    pub fn store_written(&mut self, success: bool) -> (r: Reply)
        requires
            old(self).phase_spec() == Phase::AwaitingWrite,
        ensures
            r matches Reply::WriteKeyResponse { success: s } && s == success,
            final(self).phase_spec() == Phase::Idle,
            final(self).label() == old(self).label(),
            final(self).wf() == old(self).wf(),
            final(self).spec_id() == old(self).spec_id(),
            final(self).spec_memory() == old(self).spec_memory(),
            final(self).spec_function_name() == old(self).spec_function_name(),
            final(self).initial_label() == old(self).initial_label(),
            final(self).taints() == old(self).taints(),
    {
        self.phase = Phase::Idle;
        Reply::WriteKeyResponse { success }
    }
}

/// A VM's label is its start label joined in turn with every label the guest
/// has tainted it with.
pub proof fn lemma_label_is_run(vm: &Vm)
    requires
        vm.wf(),
    ensures
        vm.label() == lub_all(vm.initial_label(), vm.taints()),
{
}

/// Two VMs that started from the same label and were tainted with the same
/// labels, in any order and any number of times each, carry the same label.
pub proof fn lemma_taint_order(a: &Vm, b: &Vm)
    requires
        a.wf(),
        b.wf(),
        a.initial_label() == b.initial_label(),
        forall|x: (ComponentModel, ComponentModel)|
            a.taints().contains(x) <==> b.taints().contains(x),
    ensures
        a.label() == b.label(),
{
    lemma_lub_all_same_labels(a.initial_label(), a.taints(), b.taints());
}

/// A VM's label only rises: the label it had after any first part of its
/// taints (its start label after none) joined with its label now is its
/// label now.
pub proof fn lemma_label_rises(vm: &Vm, j: int)
    requires
        vm.wf(),
        0 <= j <= vm.taints().len(),
    ensures
        lub_spec(lub_all(vm.initial_label(), vm.taints().take(j)), vm.label()) == vm.label(),
{
    lemma_lub_all_rises(vm.initial_label(), vm.taints(), j);
}

} // verus!
