//! Node and job states as Slurm packs them into one integer: a base state in the low bits,
//! flags above it.
use vstd::prelude::*;

verus! {

/// The state of a node. A node carrying flags is `Compound`, its base state alongside the
/// names of the flags in the order Slurm defines them.
#[derive(Debug, PartialEq, Eq, Hash)]
pub enum NodeState {
    Allocated,
    Down,
    Error,
    Future,
    Idle,
    Mixed,
    Unknown(String),
    Compound { base: Box<NodeState>, flags: Vec<String> },
    End,
}

/// What a `NodeState` says, with its text as character sequences.
pub enum NodeStateView {
    Allocated,
    Down,
    Error,
    Future,
    Idle,
    Mixed,
    Unknown(Seq<char>),
    Compound { base: Box<NodeStateView>, flags: Seq<Seq<char>> },
    End,
}

pub open spec fn node_state_view(s: NodeState) -> NodeStateView
    decreases s,
{
    match s {
        NodeState::Allocated => NodeStateView::Allocated,
        NodeState::Down => NodeStateView::Down,
        NodeState::Error => NodeStateView::Error,
        NodeState::Future => NodeStateView::Future,
        NodeState::Idle => NodeStateView::Idle,
        NodeState::Mixed => NodeStateView::Mixed,
        NodeState::Unknown(t) => NodeStateView::Unknown(t@),
        NodeState::Compound { base, flags } => NodeStateView::Compound {
            base: Box::new(node_state_view(*base)),
            flags: flags.deep_view(),
        },
        NodeState::End => NodeStateView::End,
    }
}

impl View for NodeState {
    type V = NodeStateView;

    open spec fn view(&self) -> NodeStateView {
        node_state_view(*self)
    }
}

/// The bits of a node state that hold its base state.
pub const NODE_STATE_BASE: u32 = 0xf;

/// How many flags Slurm defines above the base state, from `EXTERNAL` up to `BLOCKED`.
pub const NODE_FLAG_COUNT: u32 = 24;

/// The bit of flag `i`: the flags occupy bits 4 to 27, one each; bits 28 to 31 name none.
pub open spec fn node_flag_bit(i: u32) -> u32 {
    1u32 << (i + 4)
}

/// The name of flag `i`, as Slurm's headers spell it.
pub open spec fn node_flag_name(i: u32) -> Seq<char> {
    if i == 0 {
        "EXTERNAL"@
    } else if i == 1 {
        "RES"@
    } else if i == 2 {
        "UNDRAIN"@
    } else if i == 3 {
        "CLOUD"@
    } else if i == 4 {
        "RESUME"@
    } else if i == 5 {
        "DRAIN"@
    } else if i == 6 {
        "COMPLETING"@
    } else if i == 7 {
        "NO_RESPOND"@
    } else if i == 8 {
        "POWERED_DOWN"@
    } else if i == 9 {
        "FAIL"@
    } else if i == 10 {
        "POWERING_UP"@
    } else if i == 11 {
        "MAINT"@
    } else if i == 12 {
        "REBOOT_REQUESTED"@
    } else if i == 13 {
        "REBOOT_CANCEL"@
    } else if i == 14 {
        "POWERING_DOWN"@
    } else if i == 15 {
        "DYNAMIC_FUTURE"@
    } else if i == 16 {
        "REBOOT_ISSUED"@
    } else if i == 17 {
        "REBOOT_PLANNED"@
    } else if i == 18 {
        "INVALID_REG"@
    } else if i == 19 {
        "POWER_DOWN"@
    } else if i == 20 {
        "POWER_UP"@
    } else if i == 21 {
        "POWER_DRAIN"@
    } else if i == 22 {
        "DYNAMIC_NORM"@
    } else {
        "BLOCKED"@
    }
}

fn node_flag_name_string(i: u32) -> (s: String)
    requires
        i < NODE_FLAG_COUNT,
    ensures
        s@ == node_flag_name(i),
{
    proof {
        broadcast use vstd::string::to_string_from_display_ensures_for_str;
    }
    let s: &str = if i == 0 {
        "EXTERNAL"
    } else if i == 1 {
        "RES"
    } else if i == 2 {
        "UNDRAIN"
    } else if i == 3 {
        "CLOUD"
    } else if i == 4 {
        "RESUME"
    } else if i == 5 {
        "DRAIN"
    } else if i == 6 {
        "COMPLETING"
    } else if i == 7 {
        "NO_RESPOND"
    } else if i == 8 {
        "POWERED_DOWN"
    } else if i == 9 {
        "FAIL"
    } else if i == 10 {
        "POWERING_UP"
    } else if i == 11 {
        "MAINT"
    } else if i == 12 {
        "REBOOT_REQUESTED"
    } else if i == 13 {
        "REBOOT_CANCEL"
    } else if i == 14 {
        "POWERING_DOWN"
    } else if i == 15 {
        "DYNAMIC_FUTURE"
    } else if i == 16 {
        "REBOOT_ISSUED"
    } else if i == 17 {
        "REBOOT_PLANNED"
    } else if i == 18 {
        "INVALID_REG"
    } else if i == 19 {
        "POWER_DOWN"
    } else if i == 20 {
        "POWER_UP"
    } else if i == 21 {
        "POWER_DRAIN"
    } else if i == 22 {
        "DYNAMIC_NORM"
    } else {
        "BLOCKED"
    };
    s.to_string()
}

/// The names of the flags among the first `n` that `state` carries, in order.
pub open spec fn node_flags_upto(state: u32, n: u32) -> Seq<Seq<char>>
    decreases n,
{
    if n == 0 {
        Seq::empty()
    } else {
        let init = node_flags_upto(state, (n - 1) as u32);
        if state & node_flag_bit((n - 1) as u32) != 0 {
            init.push(node_flag_name((n - 1) as u32))
        } else {
            init
        }
    }
}

/// The names of every flag `state` carries, in the order Slurm defines them.
pub open spec fn node_flag_names(state: u32) -> Seq<Seq<char>> {
    node_flags_upto(state, NODE_FLAG_COUNT)
}

/// Which flags a state carries, as a sequence of names: flag `i` is among the first `n`
/// exactly when its bit is set.
proof fn lemma_flags_upto_contains(state: u32, n: u32, x: Seq<char>)
    requires
        n <= NODE_FLAG_COUNT,
    ensures
        node_flags_upto(state, n).contains(x) <==> exists|i: u32|
            i < n && state & node_flag_bit(i) != 0 && #[trigger] node_flag_name(i) == x,
    decreases n,
{
    if n > 0 {
        let m = (n - 1) as u32;
        lemma_flags_upto_contains(state, m, x);
        let init = node_flags_upto(state, m);
        if state & node_flag_bit(m) != 0 {
            let t = init.push(node_flag_name(m));
            assert(t[t.len() - 1] == node_flag_name(m));
            if init.contains(x) {
                let k = choose|k: int| 0 <= k < init.len() && init[k] == x;
                assert(t[k] == x);
            }
            if t.contains(x) && !init.contains(x) {
                let k = choose|k: int| 0 <= k < t.len() && t[k] == x;
                if k < init.len() {
                    assert(init[k] == x);
                }
            }
        }
        if exists|i: u32| i < n && state & node_flag_bit(i) != 0 && #[trigger] node_flag_name(i) == x {
            let i = choose|i: u32| i < n && state & node_flag_bit(i) != 0 && #[trigger] node_flag_name(i) == x;
            if i == m {
                let t = init.push(node_flag_name(m));
                assert(t[t.len() - 1] == x);
            }
        }
    }
}

/// No two flags share a name.
proof fn lemma_flag_names_distinct(i: u32, j: u32)
    requires
        i < NODE_FLAG_COUNT,
        j < NODE_FLAG_COUNT,
        node_flag_name(i) == node_flag_name(j),
    ensures
        i == j,
{
    reveal_strlit("EXTERNAL");
    reveal_strlit("RES");
    reveal_strlit("UNDRAIN");
    reveal_strlit("CLOUD");
    reveal_strlit("RESUME");
    reveal_strlit("DRAIN");
    reveal_strlit("COMPLETING");
    reveal_strlit("NO_RESPOND");
    reveal_strlit("POWERED_DOWN");
    reveal_strlit("FAIL");
    reveal_strlit("POWERING_UP");
    reveal_strlit("MAINT");
    reveal_strlit("REBOOT_REQUESTED");
    reveal_strlit("REBOOT_CANCEL");
    reveal_strlit("POWERING_DOWN");
    reveal_strlit("DYNAMIC_FUTURE");
    reveal_strlit("REBOOT_ISSUED");
    reveal_strlit("REBOOT_PLANNED");
    reveal_strlit("INVALID_REG");
    reveal_strlit("POWER_DOWN");
    reveal_strlit("POWER_UP");
    reveal_strlit("POWER_DRAIN");
    reveal_strlit("DYNAMIC_NORM");
    reveal_strlit("BLOCKED");
    let a = node_flag_name(i);
    assert(a.len() == node_flag_name(j).len());
    assert(a[0] == node_flag_name(j)[0]);
    assert(a[a.len() - 1] == node_flag_name(j)[a.len() - 1]);
}

proof fn lemma_flag_bit(state: u32, k: u32)
    requires
        k < NODE_FLAG_COUNT,
    ensures
        (state & node_flag_bit(k) != 0) <==> node_flag_names(state).contains(node_flag_name(k)),
{
    lemma_flags_upto_contains(state, NODE_FLAG_COUNT, node_flag_name(k));
    if node_flag_names(state).contains(node_flag_name(k)) {
        let i = choose|i: u32|
            i < NODE_FLAG_COUNT && state & node_flag_bit(i) != 0 && #[trigger] node_flag_name(i) == node_flag_name(k);
        lemma_flag_names_distinct(i, k);
    }
}

/// The flags a state carries are named by their bits as Slurm's headers name them: each
/// bit from 4 to 27 is set exactly when its name is among the state's flags.
pub proof fn lemma_flag_names_by_bit(state: u32)
    ensures
        (state & 0x00000010u32 != 0) <==> node_flag_names(state).contains("EXTERNAL"@),
        (state & 0x00000020u32 != 0) <==> node_flag_names(state).contains("RES"@),
        (state & 0x00000040u32 != 0) <==> node_flag_names(state).contains("UNDRAIN"@),
        (state & 0x00000080u32 != 0) <==> node_flag_names(state).contains("CLOUD"@),
        (state & 0x00000100u32 != 0) <==> node_flag_names(state).contains("RESUME"@),
        (state & 0x00000200u32 != 0) <==> node_flag_names(state).contains("DRAIN"@),
        (state & 0x00000400u32 != 0) <==> node_flag_names(state).contains("COMPLETING"@),
        (state & 0x00000800u32 != 0) <==> node_flag_names(state).contains("NO_RESPOND"@),
        (state & 0x00001000u32 != 0) <==> node_flag_names(state).contains("POWERED_DOWN"@),
        (state & 0x00002000u32 != 0) <==> node_flag_names(state).contains("FAIL"@),
        (state & 0x00004000u32 != 0) <==> node_flag_names(state).contains("POWERING_UP"@),
        (state & 0x00008000u32 != 0) <==> node_flag_names(state).contains("MAINT"@),
        (state & 0x00010000u32 != 0) <==> node_flag_names(state).contains("REBOOT_REQUESTED"@),
        (state & 0x00020000u32 != 0) <==> node_flag_names(state).contains("REBOOT_CANCEL"@),
        (state & 0x00040000u32 != 0) <==> node_flag_names(state).contains("POWERING_DOWN"@),
        (state & 0x00080000u32 != 0) <==> node_flag_names(state).contains("DYNAMIC_FUTURE"@),
        (state & 0x00100000u32 != 0) <==> node_flag_names(state).contains("REBOOT_ISSUED"@),
        (state & 0x00200000u32 != 0) <==> node_flag_names(state).contains("REBOOT_PLANNED"@),
        (state & 0x00400000u32 != 0) <==> node_flag_names(state).contains("INVALID_REG"@),
        (state & 0x00800000u32 != 0) <==> node_flag_names(state).contains("POWER_DOWN"@),
        (state & 0x01000000u32 != 0) <==> node_flag_names(state).contains("POWER_UP"@),
        (state & 0x02000000u32 != 0) <==> node_flag_names(state).contains("POWER_DRAIN"@),
        (state & 0x04000000u32 != 0) <==> node_flag_names(state).contains("DYNAMIC_NORM"@),
        (state & 0x08000000u32 != 0) <==> node_flag_names(state).contains("BLOCKED"@),
{
    lemma_flag_bit(state, 0);
    lemma_flag_bit(state, 1);
    lemma_flag_bit(state, 2);
    lemma_flag_bit(state, 3);
    lemma_flag_bit(state, 4);
    lemma_flag_bit(state, 5);
    lemma_flag_bit(state, 6);
    lemma_flag_bit(state, 7);
    lemma_flag_bit(state, 8);
    lemma_flag_bit(state, 9);
    lemma_flag_bit(state, 10);
    lemma_flag_bit(state, 11);
    lemma_flag_bit(state, 12);
    lemma_flag_bit(state, 13);
    lemma_flag_bit(state, 14);
    lemma_flag_bit(state, 15);
    lemma_flag_bit(state, 16);
    lemma_flag_bit(state, 17);
    lemma_flag_bit(state, 18);
    lemma_flag_bit(state, 19);
    lemma_flag_bit(state, 20);
    lemma_flag_bit(state, 21);
    lemma_flag_bit(state, 22);
    lemma_flag_bit(state, 23);
    assert(1u32 << 4 == 0x10u32 && 1u32 << 5 == 0x20u32 && 1u32 << 6 == 0x40u32 && 1u32 << 7 == 0x80u32 && 1u32 << 8 == 0x100u32 && 1u32 << 9 == 0x200u32 && 1u32 << 10 == 0x400u32 && 1u32 << 11 == 0x800u32 && 1u32 << 12 == 0x1000u32 && 1u32 << 13 == 0x2000u32 && 1u32 << 14 == 0x4000u32 && 1u32 << 15 == 0x8000u32 && 1u32 << 16 == 0x10000u32 && 1u32 << 17 == 0x20000u32 && 1u32 << 18 == 0x40000u32 && 1u32 << 19 == 0x80000u32 && 1u32 << 20 == 0x100000u32 && 1u32 << 21 == 0x200000u32 && 1u32 << 22 == 0x400000u32 && 1u32 << 23 == 0x800000u32 && 1u32 << 24 == 0x1000000u32 && 1u32 << 25 == 0x2000000u32 && 1u32 << 26 == 0x4000000u32 && 1u32 << 27 == 0x8000000u32) by (bit_vector);
}

/// The base state spelled by the low bits `b`; one Slurm does not define is recorded as
/// `BASE(b)`.
pub open spec fn base_state_of(b: u32) -> NodeStateView {
    if b == 1 {
        NodeStateView::Down
    } else if b == 2 {
        NodeStateView::Idle
    } else if b == 3 {
        NodeStateView::Allocated
    } else if b == 4 {
        NodeStateView::Error
    } else if b == 5 {
        NodeStateView::Mixed
    } else if b == 6 {
        NodeStateView::Future
    } else if b == 7 {
        NodeStateView::End
    } else {
        NodeStateView::Unknown(unknown_base_text(b))
    }
}

/// The text an unrecognized base state is recorded with: `BASE(n)`.
pub open spec fn unknown_base_text(b: u32) -> Seq<char> {
    "BASE("@ + crate::text::decimal(b as nat) + ")"@
}

/// The state that the number `state` stands for: its base state alone, or with the names
/// of the flags it carries.
pub open spec fn decoded_state(state: u32) -> NodeStateView {
    let base = base_state_of(state & NODE_STATE_BASE);
    let flags = node_flag_names(state);
    if flags.len() == 0 {
        base
    } else {
        NodeStateView::Compound { base: Box::new(base), flags }
    }
}

pub fn text_string(cs: &[char]) -> (s: String)
    ensures
        s@ == cs@,
{
    crate::text::string_of(cs)
}

/// A copy of `v`.
pub fn copy_strings(v: &Vec<String>) -> (out: Vec<String>)
    ensures
        out@ == v@,
{
    let mut out: Vec<String> = Vec::new();
    let mut i: usize = 0;
    while i < v.len()
        invariant
            i <= v@.len(),
            out@ == v@.take(i as int),
        decreases v@.len() - i,
    {
        out.push(v[i].clone());
        i = i + 1;
        assert(out@ =~= v@.take(i as int));
    }
    assert(v@.take(v@.len() as int) =~= v@);
    out
}

impl NodeState {
    /// A copy of this state.
    pub fn duplicate(&self) -> (r: NodeState)
        ensures
            r@ == self@,
        decreases self,
    {
        match self {
            NodeState::Allocated => NodeState::Allocated,
            NodeState::Down => NodeState::Down,
            NodeState::Error => NodeState::Error,
            NodeState::Future => NodeState::Future,
            NodeState::Idle => NodeState::Idle,
            NodeState::Mixed => NodeState::Mixed,
            NodeState::Unknown(t) => NodeState::Unknown(t.clone()),
            NodeState::Compound { base, flags } => NodeState::Compound {
                base: Box::new(base.duplicate()),
                flags: copy_strings(flags),
            },
            NodeState::End => NodeState::End,
        }
    }

    /// Decodes a node state as Slurm reports it: the low four bits are the base state, the
    /// flags above them are named in the order Slurm defines them. A state with no flag
    /// set is its base state alone.
    pub fn from_state(state_num: u32) -> (s: NodeState)
        ensures
            s@ == decoded_state(state_num),
    {
        let b = state_num & NODE_STATE_BASE;
        let base = if b == 1 {
            NodeState::Down
        } else if b == 2 {
            NodeState::Idle
        } else if b == 3 {
            NodeState::Allocated
        } else if b == 4 {
            NodeState::Error
        } else if b == 5 {
            NodeState::Mixed
        } else if b == 6 {
            NodeState::Future
        } else if b == 7 {
            NodeState::End
        } else {
            let open = crate::text::chars_of("BASE(");
            let digits = crate::text::decimal_chars(b as u64);
            let close = crate::text::chars_of(")");
            let head = crate::text::concat(&open, &digits);
            let text = crate::text::concat(&head, &close);
            NodeState::Unknown(text_string(&text))
        };
        let mut flags: Vec<String> = Vec::new();
        let mut i: u32 = 0;
        while i < NODE_FLAG_COUNT
            invariant
                i <= NODE_FLAG_COUNT,
                flags.deep_view() == node_flags_upto(state_num, i),
            decreases NODE_FLAG_COUNT - i,
        {
            if state_num & (1u32 << (i + 4)) != 0 {
                let name = node_flag_name_string(i);
                let ghost before = flags.deep_view();
                flags.push(name);
                assert(flags.deep_view() =~= before.push(name@));
            }
            i = i + 1;
        }
        proof {
            reveal_with_fuel(node_state_view, 2);
        }
        if flags.len() == 0 {
            base
        } else {
            NodeState::Compound { base: Box::new(base), flags }
        }
    }
}

/// How a state is written: its name, `UNKNOWN(..)` around an unknown state's text, and
/// a compound state as its base in upper case and its flags as they are, joined by `+`,
/// e.g. "IDLE+DRAIN".
pub open spec fn state_text(s: NodeStateView) -> Seq<char>
    decreases s,
{
    match s {
        NodeStateView::Allocated => "Allocated"@,
        NodeStateView::Down => "Down"@,
        NodeStateView::Error => "Error"@,
        NodeStateView::Future => "Future"@,
        NodeStateView::Idle => "Idle"@,
        NodeStateView::Mixed => "Mixed"@,
        NodeStateView::Unknown(t) => "UNKNOWN("@ + t + ")"@,
        NodeStateView::Compound { base, flags } => crate::text::uppercase_of(state_text(*base)) + "+"@
            + crate::text::join(flags, "+"@),
        NodeStateView::End => "End"@,
    }
}

/// Whether two states say the same.
pub fn states_equal(a: &NodeState, b: &NodeState) -> (r: bool)
    ensures
        r == (a@ == b@),
    decreases a,
{
    proof {
        reveal_with_fuel(node_state_view, 2);
    }
    match (a, b) {
        (NodeState::Allocated, NodeState::Allocated) => true,
        (NodeState::Down, NodeState::Down) => true,
        (NodeState::Error, NodeState::Error) => true,
        (NodeState::Future, NodeState::Future) => true,
        (NodeState::Idle, NodeState::Idle) => true,
        (NodeState::Mixed, NodeState::Mixed) => true,
        (NodeState::End, NodeState::End) => true,
        (NodeState::Unknown(x), NodeState::Unknown(y)) => {
            let xs = crate::text::chars_of(x.as_str());
            let ys = crate::text::chars_of(y.as_str());
            crate::text::chars_eq(&xs, &ys)
        },
        (NodeState::Compound { base: ba, flags: fa }, NodeState::Compound { base: bb, flags: fb }) => {
            if !states_equal(&**ba, &**bb) {
                return false;
            }
            if fa.len() != fb.len() {
                assert(fa.deep_view().len() != fb.deep_view().len());
                return false;
            }
            let mut i: usize = 0;
            while i < fa.len()
                invariant
                    i <= fa@.len(),
                    fa@.len() == fb@.len(),
                    a@ == (NodeStateView::Compound { base: Box::new(node_state_view(**ba)), flags: fa.deep_view() }),
                    b@ == (NodeStateView::Compound { base: Box::new(node_state_view(**bb)), flags: fb.deep_view() }),
                    forall|k: int| 0 <= k < i ==> #[trigger] fa.deep_view()[k] == fb.deep_view()[k],
                decreases fa@.len() - i,
            {
                let x = crate::text::chars_of(fa[i].as_str());
                let y = crate::text::chars_of(fb[i].as_str());
                if !crate::text::chars_eq(&x, &y) {
                    assert(fa.deep_view()[i as int] != fb.deep_view()[i as int]);
                    return false;
                }
                i = i + 1;
            }
            assert(fa.deep_view() =~= fb.deep_view());
            true
        },
        _ => false,
    }
}

impl NodeState {
    /// How this state is written (see `state_text`).
    pub fn label(&self) -> (s: String)
        ensures
            s@ == state_text(self@),
        decreases self,
    {
        proof {
            reveal_with_fuel(node_state_view, 2);
        }
        let text: Vec<char> = match self {
            NodeState::Allocated => crate::text::chars_of("Allocated"),
            NodeState::Down => crate::text::chars_of("Down"),
            NodeState::Error => crate::text::chars_of("Error"),
            NodeState::Future => crate::text::chars_of("Future"),
            NodeState::Idle => crate::text::chars_of("Idle"),
            NodeState::Mixed => crate::text::chars_of("Mixed"),
            NodeState::End => crate::text::chars_of("End"),
            NodeState::Unknown(t) => {
                let a = crate::text::chars_of("UNKNOWN(");
                let b = crate::text::chars_of(t.as_str());
                let c = crate::text::chars_of(")");
                let ab = crate::text::concat(&a, &b);
                crate::text::concat(&ab, &c)
            },
            NodeState::Compound { base, flags } => {
                let b = base.label();
                let bu = crate::text::to_upper(b.as_str());
                let bc = crate::text::chars_of(bu.as_str());
                let plus = crate::text::chars_of("+");
                let mut parts: Vec<Vec<char>> = Vec::new();
                let mut i: usize = 0;
                while i < flags.len()
                    invariant
                        i <= flags@.len(),
                        parts.deep_view() == flags.deep_view().take(i as int),
                    decreases flags@.len() - i,
                {
                    let f = crate::text::chars_of(flags[i].as_str());
                    let ghost before = parts.deep_view();
                    proof {
                        crate::text::lemma_chars_deep_view(f);
                    }
                    parts.push(f);
                    assert(flags.deep_view()[i as int] == flags@[i as int]@);
                    assert(parts.deep_view() =~= before.push(flags.deep_view()[i as int]));
                    assert(flags.deep_view().take(i + 1) =~= flags.deep_view().take(i as int).push(flags.deep_view()[i as int]));
                    i = i + 1;
                }
                assert(flags.deep_view().take(i as int) =~= flags.deep_view());
                let joined = crate::text::join_chars(&parts, &plus);
                let head = crate::text::concat(&bc, &plus);
                crate::text::concat(&head, &joined)
            },
        };
        crate::text::string_of(&text)
    }
}

/// Whether `flags` names none of the flags that keep a node from taking work.
pub open spec fn no_disqualifying_flag(flags: Seq<Seq<char>>) -> bool {
    forall|i: int|
        0 <= i < flags.len() ==> #[trigger] flags[i] != "MAINT"@ && flags[i] != "DOWN"@
            && flags[i] != "DRAIN"@ && flags[i] != "INVALID_REG"@
}

/// Whether state `s` is `base`, alone or with none of the flags that keep a node from
/// taking work.
pub open spec fn has_base_and_free(s: NodeStateView, base: NodeStateView) -> bool {
    s == base || (s matches NodeStateView::Compound { base: b, flags } && *b == base
        && no_disqualifying_flag(flags))
}

fn is_disqualifying(flag: &String) -> (r: bool)
    ensures
        r == (flag@ == "MAINT"@ || flag@ == "DOWN"@ || flag@ == "DRAIN"@ || flag@
            == "INVALID_REG"@),
{
    let f = crate::text::chars_of(flag.as_str());
    let maint = crate::text::chars_of("MAINT");
    let down = crate::text::chars_of("DOWN");
    let drain = crate::text::chars_of("DRAIN");
    let invalid = crate::text::chars_of("INVALID_REG");
    crate::text::chars_eq(&f, &maint) || crate::text::chars_eq(&f, &down) || crate::text::chars_eq(
        &f,
        &drain,
    ) || crate::text::chars_eq(&f, &invalid)
}

fn flags_free(flags: &Vec<String>) -> (r: bool)
    ensures
        r == no_disqualifying_flag(flags.deep_view()),
{
    let mut i: usize = 0;
    while i < flags.len()
        invariant
            i <= flags@.len(),
            forall|k: int| 0 <= k < i ==> #[trigger] flags.deep_view()[k] != "MAINT"@ && flags.deep_view()[k] != "DOWN"@
                && flags.deep_view()[k] != "DRAIN"@ && flags.deep_view()[k] != "INVALID_REG"@,
        decreases flags@.len() - i,
    {
        if is_disqualifying(&flags[i]) {
            assert(flags.deep_view()[i as int] == flags@[i as int]@);
            return false;
        }
        i = i + 1;
    }
    true
}

/// Whether a node in this state is available for new work: idle, and carrying none of
/// MAINT, DOWN, DRAIN or INVALID_REG.
pub fn is_node_available(state: &NodeState) -> (r: bool)
    ensures
        r == has_base_and_free(state@, NodeStateView::Idle),
{
    proof {
        reveal_with_fuel(node_state_view, 2);
    }
    match state {
        NodeState::Idle => true,
        NodeState::Compound { base, flags } => {
            match &**base {
                NodeState::Idle => flags_free(flags),
                _ => false,
            }
        },
        _ => false,
    }
}

/// Whether a node in this state is partly available for new work: mixed, and carrying none
/// of MAINT, DOWN, DRAIN or INVALID_REG.
pub fn is_node_mixed(state: &NodeState) -> (r: bool)
    ensures
        r == has_base_and_free(state@, NodeStateView::Mixed),
{
    proof {
        reveal_with_fuel(node_state_view, 2);
    }
    match state {
        NodeState::Mixed => true,
        NodeState::Compound { base, flags } => {
            match &**base {
                NodeState::Mixed => flags_free(flags),
                _ => false,
            }
        },
        _ => false,
    }
}

/// The state of a job.
#[derive(Debug, Clone, Copy, PartialEq, Eq, Hash)]
pub enum JobState {
    Pending,
    Running,
    Suspended,
    Complete,
    Cancelled,
    Failed,
    Timeout,
    NodeFail,
    Preempted,
    BootFail,
    Deadline,
    OutOfMemory,
    End,
    /// A base state this build does not know, carrying the value Slurm reported
    Unknown(u32),
}

/// The bits of a job state that hold its base state.
pub const JOB_STATE_BASE: u32 = 0xff;

/// The flag bits Slurm packs above a job's base state that this library names: launch
/// failed (0x100), then requeue through stage-out (0x400 to 0x800000). A job carrying any
/// of them is still in its base state.
pub const JOB_STATE_FLAGS: u32 = 0x00ff_fd00;

/// The named flags of a job state, others dropped (`JobStateFlags::from_bits_truncate`).
pub fn job_state_flags(state_num: u32) -> (f: u32)
    ensures
        f == state_num & JOB_STATE_FLAGS,
{
    state_num & JOB_STATE_FLAGS
}

/// The job state that base value `b` stands for.
pub open spec fn job_state_of(b: u32) -> JobState {
    if b == 0 {
        JobState::Pending
    } else if b == 1 {
        JobState::Running
    } else if b == 2 {
        JobState::Suspended
    } else if b == 3 {
        JobState::Complete
    } else if b == 4 {
        JobState::Cancelled
    } else if b == 5 {
        JobState::Failed
    } else if b == 6 {
        JobState::Timeout
    } else if b == 7 {
        JobState::NodeFail
    } else if b == 8 {
        JobState::Preempted
    } else if b == 9 {
        JobState::BootFail
    } else if b == 10 {
        JobState::Deadline
    } else if b == 11 {
        JobState::OutOfMemory
    } else if b == 12 {
        JobState::End
    } else {
        JobState::Unknown(b)
    }
}

impl JobState {
    /// Decodes a job state as Slurm reports it: the flags above the low byte come off, and
    /// the base state that remains is recognized.
    pub fn from_state(state_num: u32) -> (s: JobState)
        ensures
            s == job_state_of(state_num & JOB_STATE_BASE),
    {
        let b = state_num & JOB_STATE_BASE;
        if b == 0 {
            JobState::Pending
        } else if b == 1 {
            JobState::Running
        } else if b == 2 {
            JobState::Suspended
        } else if b == 3 {
            JobState::Complete
        } else if b == 4 {
            JobState::Cancelled
        } else if b == 5 {
            JobState::Failed
        } else if b == 6 {
            JobState::Timeout
        } else if b == 7 {
            JobState::NodeFail
        } else if b == 8 {
            JobState::Preempted
        } else if b == 9 {
            JobState::BootFail
        } else if b == 10 {
            JobState::Deadline
        } else if b == 11 {
            JobState::OutOfMemory
        } else if b == 12 {
            JobState::End
        } else {
            JobState::Unknown(b)
        }
    }

    /// Whether this is the running state.
    pub fn is_running(&self) -> (r: bool)
        ensures
            r == (*self == JobState::Running),
    {
        match self {
            JobState::Running => true,
            _ => false,
        }
    }
}

} // verus!
