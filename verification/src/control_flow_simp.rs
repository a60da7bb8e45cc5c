//! Local simplifications of the control flow of one function's x86-64 code: label
//! merging, jump threading, removal of jumps to the next instruction, branch inversion
//! and removal of unreachable code and unused labels.
use vstd::prelude::*;

use crate::x86asm::X86Instr;

verus! {

/// The label a jump instruction targets.
pub open spec fn jump_target(i: X86Instr) -> Option<String> {
    match i {
        X86Instr::Jmp(l) => Some(l),
        X86Instr::Jne(l) => Some(l),
        X86Instr::Je(l) => Some(l),
        X86Instr::Jl(l) => Some(l),
        X86Instr::Jg(l) => Some(l),
        X86Instr::Jle(l) => Some(l),
        _ => None,
    }
}

/// A jump instruction with its target replaced.
pub open spec fn retarget(i: X86Instr, l: String) -> X86Instr {
    match i {
        X86Instr::Jmp(_) => X86Instr::Jmp(l),
        X86Instr::Jne(_) => X86Instr::Jne(l),
        X86Instr::Je(_) => X86Instr::Je(l),
        X86Instr::Jl(_) => X86Instr::Jl(l),
        X86Instr::Jg(_) => X86Instr::Jg(l),
        X86Instr::Jle(_) => X86Instr::Jle(l),
        _ => i,
    }
}

/// The replacement of a label in a list of replacements (the last one listed wins).
pub open spec fn replacement(m: Seq<(String, String)>, k: Seq<char>) -> Option<String>
    decreases m.len(),
{
    if m.len() == 0 {
        None
    } else if m.last().0@ == k {
        Some(m.last().1)
    } else {
        replacement(m.drop_last(), k)
    }
}

/// Follow replacements from label `l`, stopping at a label without one or at a label
/// already visited; `fuel` bounds the number of steps.
pub open spec fn follow_labels(m: Seq<(String, String)>, l: String, seen: Seq<Seq<char>>, fuel: nat) -> String
    decreases fuel,
{
    if fuel == 0 {
        l
    } else {
        match replacement(m, l@) {
            None => l,
            Some(next) => if seen.contains(l@) {
                l
            } else {
                follow_labels(m, next, seen.push(l@), (fuel - 1) as nat)
            },
        }
    }
}

/// The label that `l` stands for after following all replacements. One step more than
/// there are replacements suffices: each step but the last visits a new label.
pub open spec fn resolved_label(m: Seq<(String, String)>, l: String) -> String {
    follow_labels(m, l, Seq::<Seq<char>>::empty(), m.len() + 1)
}

/// An instruction whose jump target, if any, is resolved through the replacements.
pub open spec fn with_resolved_target(i: X86Instr, m: Seq<(String, String)>) -> X86Instr {
    match jump_target(i) {
        Some(t) => retarget(i, resolved_label(m, t)),
        None => i,
    }
}

/// The aliases found in the first `n` instructions: each label that directly follows
/// another label, with the first label of its run; and that first label, when the
/// `n`-th instruction ends a run of labels.
pub open spec fn aliases_upto(s: Seq<X86Instr>, n: int) -> (Seq<(String, String)>, Option<String>)
    decreases n,
{
    if n <= 0 {
        (Seq::<(String, String)>::empty(), None)
    } else {
        let (a, prev) = aliases_upto(s, n - 1);
        match s[n - 1] {
            X86Instr::Label(l) => match prev {
                Some(p) => (a.push((l, p)), prev),
                None => (a, Some(l)),
            },
            _ => (a, None),
        }
    }
}

/// Each label that directly follows another label, with the first label of its run.
pub open spec fn label_aliases(s: Seq<X86Instr>) -> Seq<(String, String)> {
    aliases_upto(s, s.len() as int).0
}

/// The instruction is a label that is an alias.
pub open spec fn is_alias_label(i: X86Instr, a: Seq<(String, String)>) -> bool {
    i matches X86Instr::Label(l) && replacement(a, l@) is Some
}

/// The first `n` instructions with alias labels dropped and jumps retargeted.
pub open spec fn merged_upto(s: Seq<X86Instr>, a: Seq<(String, String)>, n: int) -> Seq<X86Instr>
    decreases n,
{
    if n <= 0 {
        Seq::<X86Instr>::empty()
    } else if is_alias_label(s[n - 1], a) {
        merged_upto(s, a, n - 1)
    } else {
        merged_upto(s, a, n - 1).push(with_resolved_target(s[n - 1], a))
    }
}

/// The labels that start a run of labels followed by a jump, with the jump's target.
pub open spec fn first_non_label(s: Seq<X86Instr>, j: int) -> int
    decreases s.len() - j,
{
    if j >= s.len() {
        s.len() as int
    } else if s[j] is Label {
        first_non_label(s, j + 1)
    } else {
        j
    }
}

/// Labels that are followed (over other labels) by an unconditional jump, with the
/// jump's target, for the first `n` instructions.
pub open spec fn jumps_upto(s: Seq<X86Instr>, n: int) -> Seq<(String, String)>
    decreases n,
{
    if n <= 0 {
        Seq::<(String, String)>::empty()
    } else {
        let m = jumps_upto(s, n - 1);
        match s[n - 1] {
            X86Instr::Label(l) => {
                let j = first_non_label(s, n);
                if j < s.len() {
                    match s[j] {
                        X86Instr::Jmp(t) => m.push((l, t)),
                        _ => m,
                    }
                } else {
                    m
                }
            },
            _ => m,
        }
    }
}

/// Labels that are followed by an unconditional jump, with the jump's target.
pub open spec fn jump_map(s: Seq<X86Instr>) -> Seq<(String, String)> {
    jumps_upto(s, s.len() as int)
}

/// For the first `n` entries of a jump map, the labels that resolve to another label,
/// with that label.
pub open spec fn threads_upto(jm: Seq<(String, String)>, n: int) -> Seq<(String, String)>
    decreases n,
{
    if n <= 0 {
        Seq::<(String, String)>::empty()
    } else {
        let t = threads_upto(jm, n - 1);
        let l = jm[n - 1].0;
        let r = resolved_label(jm, l);
        if r@ != l@ {
            t.push((l, r))
        } else {
            t
        }
    }
}

/// The labels of a jump map that resolve to another label, with that label.
pub open spec fn thread_targets(jm: Seq<(String, String)>) -> Seq<(String, String)> {
    threads_upto(jm, jm.len() as int)
}

/// Jump threading changes the target of the jump.
pub open spec fn thread_changes(i: X86Instr, m: Seq<(String, String)>) -> bool {
    jump_target(i) matches Some(t) && resolved_label(m, t)@ != t@
}

/// Some label in the run of labels from position `j` on is `t`.
pub open spec fn label_run_has(s: Seq<X86Instr>, j: int, t: Seq<char>) -> bool
    decreases s.len() - j,
{
    if j < 0 || j >= s.len() {
        false
    } else {
        match s[j] {
            X86Instr::Label(l) => l@ == t || label_run_has(s, j + 1, t),
            _ => false,
        }
    }
}

/// The jump at position `i` lands on one of the labels right after it.
pub open spec fn redundant_jump(s: Seq<X86Instr>, i: int) -> bool {
    jump_target(s[i]) matches Some(t) && label_run_has(s, i + 1, t@)
}

/// The first `n` instructions without redundant jumps.
pub open spec fn without_redundant_upto(s: Seq<X86Instr>, n: int) -> Seq<X86Instr>
    decreases n,
{
    if n <= 0 {
        Seq::<X86Instr>::empty()
    } else if redundant_jump(s, n - 1) {
        without_redundant_upto(s, n - 1)
    } else {
        without_redundant_upto(s, n - 1).push(s[n - 1])
    }
}

/// `jcc t; jmp e; t:` becomes `j!cc e; t:` (for the conditions that can be inverted).
pub open spec fn inverted_branch(c: X86Instr, j: X86Instr, a: X86Instr) -> Option<X86Instr> {
    match j {
        X86Instr::Jmp(e) => match a {
            X86Instr::Label(f) => match c {
                X86Instr::Jne(t) => if t@ == f@ { Some(X86Instr::Je(e)) } else { None },
                X86Instr::Je(t) => if t@ == f@ { Some(X86Instr::Jne(e)) } else { None },
                X86Instr::Jg(t) => if t@ == f@ { Some(X86Instr::Jle(e)) } else { None },
                X86Instr::Jle(t) => if t@ == f@ { Some(X86Instr::Jg(e)) } else { None },
                _ => None,
            },
            _ => None,
        },
        _ => None,
    }
}

/// Branch inversion from position `i` on: the code, and whether anything changed.
pub open spec fn inverted_from(s: Seq<X86Instr>, i: int) -> (Seq<X86Instr>, bool)
    decreases s.len() - i,
{
    if i < 0 || i >= s.len() {
        (Seq::<X86Instr>::empty(), false)
    } else if i + 2 < s.len() && inverted_branch(s[i], s[i + 1], s[i + 2]) is Some {
        let rest = inverted_from(s, i + 2);
        (seq![inverted_branch(s[i], s[i + 1], s[i + 2])->0] + rest.0, true)
    } else {
        let rest = inverted_from(s, i + 1);
        (seq![s[i]] + rest.0, rest.1)
    }
}

/// The first `n` instructions with those that no label makes reachable after a `jmp`
/// or `ret` dropped; and whether the `n`-th instruction is followed by reachable code.
pub open spec fn reachable_upto(s: Seq<X86Instr>, n: int) -> (Seq<X86Instr>, bool)
    decreases n,
{
    if n <= 0 {
        (Seq::<X86Instr>::empty(), true)
    } else {
        let (r, can_emit) = reachable_upto(s, n - 1);
        let i = s[n - 1];
        if i is Label {
            (r.push(i), true)
        } else if can_emit {
            (r.push(i), !(i is Jmp || i is Ret))
        } else {
            (r, false)
        }
    }
}

/// Some jump in the code targets label `l`.
pub open spec fn referenced(s: Seq<X86Instr>, l: Seq<char>) -> bool {
    exists|k: int| 0 <= k < s.len() && (jump_target(#[trigger] s[k]) matches Some(t) && t@ == l)
}

/// The instruction is a label that no jump of `s` targets.
pub open spec fn unreferenced_label(s: Seq<X86Instr>, i: X86Instr) -> bool {
    i matches X86Instr::Label(l) && !referenced(s, l@)
}

/// The first `n` instructions of `r` without the labels that no jump of `r` targets.
pub open spec fn referenced_upto(r: Seq<X86Instr>, n: int) -> Seq<X86Instr>
    decreases n,
{
    if n <= 0 {
        Seq::<X86Instr>::empty()
    } else if unreferenced_label(r, r[n - 1]) {
        referenced_upto(r, n - 1)
    } else {
        referenced_upto(r, n - 1).push(r[n - 1])
    }
}

/// The replacement of a label, if any.
fn find_replacement(m: &Vec<(String, String)>, k: &String) -> (r: Option<String>)
    ensures
        r == replacement(m@, k@),
{
    let mut i = m.len();
    proof {
        assert(m@.take(m@.len() as int) =~= m@);
    }
    while i > 0
        invariant
            i <= m@.len(),
            replacement(m@.take(i as int), k@) == replacement(m@, k@),
        decreases i,
    {
        proof {
            assert(m@.take(i as int).drop_last() =~= m@.take(i as int - 1));
        }
        if m[i - 1].0 == *k {
            return Some(m[i - 1].1.clone());
        }
        i = i - 1;
    }
    proof {
        assert(m@.take(0) =~= Seq::<(String, String)>::empty());
    }
    None
}

/// Helper that follows label replacements until a stable target is reached.
fn resolve_label(start_label: String, replacements: &Vec<(String, String)>) -> (r: String)
    ensures
        r == resolved_label(replacements@, start_label),
{
    let ghost start = start_label;
    let mut label = start_label;
    let mut seen: Vec<String> = Vec::new();
    let ghost mut seen_v: Seq<Seq<char>> = Seq::empty();
    let mut fuel: u128 = replacements.len() as u128 + 1;
    while fuel > 0
        invariant
            start == start_label,
            seen_v.len() == seen@.len(),
            forall|j: int| 0 <= j < seen@.len() ==> #[trigger] seen@[j]@ == seen_v[j],
            follow_labels(replacements@, label, seen_v, fuel as nat) == resolved_label(replacements@, start),
        decreases fuel,
    {
        let next = match find_replacement(replacements, &label) {
            None => {
                proof {
                    assert(follow_labels(replacements@, label, seen_v, fuel as nat) == label);
                }
                return label;
            },
            Some(next) => next,
        };
        let mut k: usize = 0;
        while k < seen.len()
            invariant
                k <= seen@.len(),
                forall|j: int| 0 <= j < k ==> seen@[j]@ != label@,
                start == start_label,
                seen_v.len() == seen@.len(),
                forall|j: int| 0 <= j < seen@.len() ==> #[trigger] seen@[j]@ == seen_v[j],
                fuel > 0,
                replacement(replacements@, label@) == Some(next),
                follow_labels(replacements@, label, seen_v, fuel as nat) == resolved_label(replacements@, start),
            decreases seen@.len() - k,
        {
            if seen[k] == label {
                proof {
                    assert(seen@[k as int]@ == seen_v[k as int]);
                    assert(seen_v.contains(label@));
                }
                return label;
            }
            k = k + 1;
        }
        proof {
            assert(!seen_v.contains(label@)) by {
                if seen_v.contains(label@) {
                    let j = choose|j: int| 0 <= j < seen_v.len() && seen_v[j] == label@;
                    assert(seen@[j]@ == label@);
                }
            }
            seen_v = seen_v.push(label@);
        }
        seen.push(label);
        label = next;
        fuel = fuel - 1;
    }
    label
}

/// Label merging: `(code, changed)`.
pub open spec fn merge_pass(s: Seq<X86Instr>) -> (Seq<X86Instr>, bool) {
    let a = label_aliases(s);
    if a.len() == 0 {
        (s, false)
    } else {
        (merged_upto(s, a, s.len() as int), exists|k: int| 0 <= k < s.len() && is_alias_label(#[trigger] s[k], a))
    }
}

/// Jump threading: `(code, changed)`.
pub open spec fn thread_pass(s: Seq<X86Instr>) -> (Seq<X86Instr>, bool) {
    let t = thread_targets(jump_map(s));
    if t.len() == 0 {
        (s, false)
    } else {
        (
            s.map_values(|i: X86Instr| with_resolved_target(i, t)),
            exists|k: int| 0 <= k < s.len() && thread_changes(#[trigger] s[k], t),
        )
    }
}

/// Removal of jumps to the next instruction: `(code, changed)`.
pub open spec fn redundant_pass(s: Seq<X86Instr>) -> (Seq<X86Instr>, bool) {
    (without_redundant_upto(s, s.len() as int), exists|k: int| 0 <= k < s.len() && #[trigger] redundant_jump(s, k))
}

/// Removal of unreachable code, then of unreferenced labels: `(code, changed)`.
pub open spec fn dead_code_pass(s: Seq<X86Instr>) -> (Seq<X86Instr>, bool) {
    let r1 = reachable_upto(s, s.len() as int).0;
    let r2 = referenced_upto(r1, r1.len() as int);
    (r2, r1.len() < s.len() || r2.len() < r1.len())
}

/// Helper to rewrite branch targets through a label replacement list.
fn rewrite_jump_targets(instr: X86Instr, replacements: &Vec<(String, String)>) -> (r: X86Instr)
    ensures
        r == with_resolved_target(instr, replacements@),
{
    match instr {
        X86Instr::Jmp(label) => X86Instr::Jmp(resolve_label(label, replacements)),
        X86Instr::Jne(label) => X86Instr::Jne(resolve_label(label, replacements)),
        X86Instr::Je(label) => X86Instr::Je(resolve_label(label, replacements)),
        X86Instr::Jl(label) => X86Instr::Jl(resolve_label(label, replacements)),
        X86Instr::Jg(label) => X86Instr::Jg(resolve_label(label, replacements)),
        X86Instr::Jle(label) => X86Instr::Jle(resolve_label(label, replacements)),
        other => other,
    }
}

/// Collapse runs of adjacent labels into a single canonical label.
fn merge_consecutive_labels(instrs: &mut Vec<X86Instr>) -> (changed: bool)
    ensures
        (final(instrs)@, changed) == merge_pass(old(instrs)@),
{
    let ghost s = instrs@;
    let mut aliases: Vec<(String, String)> = Vec::new();
    let mut previous_label: Option<String> = None;
    let mut k: usize = 0;
    while k < instrs.len()
        invariant
            instrs@ == s,
            k <= s.len(),
            (aliases@, previous_label) == aliases_upto(s, k as int),
        decreases s.len() - k,
    {
        match &instrs[k] {
            X86Instr::Label(label) => {
                match &previous_label {
                    Some(prev) => {
                        aliases.push((label.clone(), prev.clone()));
                    },
                    None => {
                        previous_label = Some(label.clone());
                    },
                }
            },
            _ => {
                previous_label = None;
            },
        }
        k = k + 1;
    }
    if aliases.len() == 0 {
        return false;
    }
    let ghost a = aliases@;
    let mut changed = false;
    let mut rewritten: Vec<X86Instr> = Vec::new();
    let mut k: usize = 0;
    while k < instrs.len()
        invariant
            instrs@ == s,
            a == aliases@,
            a == label_aliases(s),
            k <= s.len(),
            rewritten@ == merged_upto(s, a, k as int),
            changed <==> exists|j: int| 0 <= j < k && is_alias_label(#[trigger] s[j], a),
        decreases s.len() - k,
    {
        let alias_label = match &instrs[k] {
            X86Instr::Label(label) => find_replacement(&aliases, label).is_some(),
            _ => false,
        };
        if alias_label {
            changed = true;
        } else {
            rewritten.push(rewrite_jump_targets(instrs[k].clone(), &aliases));
        }
        k = k + 1;
    }
    *instrs = rewritten;
    changed
}

/// Whether the target of a jump changed.
fn target_changed(before: &X86Instr, after: &X86Instr) -> (r: bool)
    ensures
        (jump_target(*before) is Some && jump_target(*after) is Some && *after == retarget(
            *before,
            jump_target(*after)->0,
        )) ==> (r <==> (jump_target(*before)->0)@ != (jump_target(*after)->0)@),
        jump_target(*before) is None ==> !r,
{
    match (before, after) {
        (X86Instr::Jmp(a), X86Instr::Jmp(b)) => !(*a == *b),
        (X86Instr::Jne(a), X86Instr::Jne(b)) => !(*a == *b),
        (X86Instr::Je(a), X86Instr::Je(b)) => !(*a == *b),
        (X86Instr::Jl(a), X86Instr::Jl(b)) => !(*a == *b),
        (X86Instr::Jg(a), X86Instr::Jg(b)) => !(*a == *b),
        (X86Instr::Jle(a), X86Instr::Jle(b)) => !(*a == *b),
        _ => false,
    }
}

/// Retarget jumps to labels that immediately jump to another label.
fn jump_threading(instrs: &mut Vec<X86Instr>) -> (changed: bool)
    ensures
        (final(instrs)@, changed) == thread_pass(old(instrs)@),
{
    let ghost s = instrs@;
    let n = instrs.len();
    let mut jump_map_v: Vec<(String, String)> = Vec::new();
    let mut i: usize = 0;
    while i < n
        invariant
            instrs@ == s,
            n == s.len(),
            i <= n,
            jump_map_v@ == jumps_upto(s, i as int),
        decreases n - i,
    {
        if let X86Instr::Label(label) = &instrs[i] {
            let mut j = i + 1;
            while j < n && matches!(instrs[j], X86Instr::Label(_))
                invariant
                    instrs@ == s,
                    n == s.len(),
                    i < j <= n,
                    first_non_label(s, j as int) == first_non_label(s, i as int + 1),
                decreases n - j,
            {
                j = j + 1;
            }
            if j < n {
                if let X86Instr::Jmp(target) = &instrs[j] {
                    jump_map_v.push((label.clone(), target.clone()));
                }
            }
        }
        i = i + 1;
    }
    let ghost jm = jump_map_v@;
    let mut label_to_target: Vec<(String, String)> = Vec::new();
    let mut k: usize = 0;
    while k < jump_map_v.len()
        invariant
            jm == jump_map_v@,
            k <= jm.len(),
            label_to_target@ == threads_upto(jm, k as int),
        decreases jm.len() - k,
    {
        let label = jump_map_v[k].0.clone();
        let resolved = resolve_label(label.clone(), &jump_map_v);
        if !(resolved == label) {
            label_to_target.push((label, resolved));
        }
        k = k + 1;
    }
    if label_to_target.len() == 0 {
        return false;
    }
    let ghost t = label_to_target@;
    let mut changed = false;
    let mut rewritten: Vec<X86Instr> = Vec::new();
    let mut k: usize = 0;
    while k < n
        invariant
            instrs@ == s,
            n == s.len(),
            t == label_to_target@,
            t == thread_targets(jump_map(s)),
            k <= n,
            rewritten@ == s.take(k as int).map_values(|i: X86Instr| with_resolved_target(i, t)),
            changed <==> exists|j: int| 0 <= j < k && thread_changes(#[trigger] s[j], t),
        decreases n - k,
    {
        let new_instr = rewrite_jump_targets(instrs[k].clone(), &label_to_target);
        let moved = target_changed(&instrs[k], &new_instr);
        rewritten.push(new_instr);
        proof {
            assert(s.take(k as int + 1).map_values(|i: X86Instr| with_resolved_target(i, t)) =~= s.take(
                k as int,
            ).map_values(|i: X86Instr| with_resolved_target(i, t)).push(with_resolved_target(s[k as int], t)));
        }
        changed = changed || moved;
        k = k + 1;
    }
    proof {
        assert(s.take(n as int) =~= s);
    }
    *instrs = rewritten;
    changed
}

/// Whether a label in the run of labels after position `i` is `target`.
fn check_is_redundant(instrs: &Vec<X86Instr>, i: usize, target: &String) -> (r: bool)
    requires
        i < instrs@.len(),
    ensures
        r == label_run_has(instrs@, i + 1, target@),
{
    let n = instrs.len();
    let mut j = i + 1;
    while j < n
        invariant
            n == instrs@.len(),
            i + 1 <= j <= n,
            label_run_has(instrs@, j as int, target@) == label_run_has(instrs@, i + 1, target@),
        decreases n - j,
    {
        match &instrs[j] {
            X86Instr::Label(label) => {
                if *label == *target {
                    return true;
                }
            },
            _ => {
                return false;
            },
        }
        j = j + 1;
    }
    false
}

/// Remove jumps whose target is the next reachable label.
fn remove_redundant_jumps(instrs: &mut Vec<X86Instr>) -> (changed: bool)
    ensures
        (final(instrs)@, changed) == redundant_pass(old(instrs)@),
{
    let ghost s = instrs@;
    let n = instrs.len();
    let mut changed = false;
    let mut rewritten: Vec<X86Instr> = Vec::new();
    let mut i: usize = 0;
    while i < n
        invariant
            instrs@ == s,
            n == s.len(),
            i <= n,
            rewritten@ == without_redundant_upto(s, i as int),
            changed <==> exists|j: int| 0 <= j < i && #[trigger] redundant_jump(s, j),
        decreases n - i,
    {
        let redundant = match &instrs[i] {
            X86Instr::Jmp(target) | X86Instr::Jne(target) | X86Instr::Je(target) | X86Instr::Jl(target)
            | X86Instr::Jg(target) | X86Instr::Jle(target) => check_is_redundant(instrs, i, target),
            _ => false,
        };
        let ghost old_changed = changed;
        if redundant {
            changed = true;
        } else {
            rewritten.push(instrs[i].clone());
        }
        proof {
            assert(redundant == redundant_jump(s, i as int));
            if redundant {
                assert(redundant_jump(s, i as int));
            } else if old_changed {
                let j = choose|j: int| 0 <= j < i && #[trigger] redundant_jump(s, j);
                assert(redundant_jump(s, j));
            }
            assert forall|j: int| 0 <= j < i + 1 && #[trigger] redundant_jump(s, j) implies changed by {
                if j < i {
                    assert(old_changed);
                }
            }
        }
        i = i + 1;
    }
    *instrs = rewritten;
    changed
}

/// The inverted branch for `jcc t; jmp e; t:`, if the three instructions have that form.
fn inverse_condition(cond: &X86Instr, jump: &X86Instr, after: &X86Instr) -> (r: Option<X86Instr>)
    ensures
        r == inverted_branch(*cond, *jump, *after),
{
    let else_target = match jump {
        X86Instr::Jmp(e) => e,
        _ => {
            return None;
        },
    };
    let fallthrough = match after {
        X86Instr::Label(f) => f,
        _ => {
            return None;
        },
    };
    match cond {
        X86Instr::Jne(t) => if *t == *fallthrough { Some(X86Instr::Je(else_target.clone())) } else { None },
        X86Instr::Je(t) => if *t == *fallthrough { Some(X86Instr::Jne(else_target.clone())) } else { None },
        X86Instr::Jg(t) => if *t == *fallthrough { Some(X86Instr::Jle(else_target.clone())) } else { None },
        X86Instr::Jle(t) => if *t == *fallthrough { Some(X86Instr::Jg(else_target.clone())) } else { None },
        _ => None,
    }
}

/// Invert simple conditional branches to avoid an extra unconditional jump.
fn branch_inversion(instrs: &mut Vec<X86Instr>) -> (changed: bool)
    ensures
        (final(instrs)@, changed) == inverted_from(old(instrs)@, 0),
{
    let ghost s = instrs@;
    let n = instrs.len();
    let mut changed = false;
    let mut rewritten: Vec<X86Instr> = Vec::new();
    let mut i: usize = 0;
    while i < n
        invariant
            instrs@ == s,
            n == s.len(),
            i <= n,
            rewritten@ + inverted_from(s, i as int).0 == inverted_from(s, 0).0,
            (changed || inverted_from(s, i as int).1) == inverted_from(s, 0).1,
        decreases n - i,
    {
        let ghost before = rewritten@;
        if n - i > 2 {
            if let Some(flip) = inverse_condition(&instrs[i], &instrs[i + 1], &instrs[i + 2]) {
                rewritten.push(flip);
                proof {
                    assert(before + (seq![flip] + inverted_from(s, i + 2).0) =~= rewritten@ + inverted_from(s, i + 2).0);
                }
                changed = true;
                i = i + 2;
                continue;
            }
        }
        rewritten.push(instrs[i].clone());
        proof {
            assert(before + (seq![s[i as int]] + inverted_from(s, i + 1).0) =~= rewritten@ + inverted_from(s, i + 1).0);
        }
        i = i + 1;
    }
    proof {
        assert(rewritten@ + Seq::<X86Instr>::empty() =~= rewritten@);
    }
    *instrs = rewritten;
    changed
}

/// Whether some jump in the code targets `label`.
fn is_referenced(instrs: &Vec<X86Instr>, label: &String) -> (r: bool)
    ensures
        r == referenced(instrs@, label@),
{
    let n = instrs.len();
    let mut k: usize = 0;
    while k < n
        invariant
            n == instrs@.len(),
            k <= n,
            forall|j: int| 0 <= j < k ==> !(jump_target(#[trigger] instrs@[j]) matches Some(t) && t@ == label@),
        decreases n - k,
    {
        let hit = match &instrs[k] {
            X86Instr::Jmp(t) | X86Instr::Jne(t) | X86Instr::Je(t) | X86Instr::Jl(t) | X86Instr::Jg(t)
            | X86Instr::Jle(t) => *t == *label,
            _ => false,
        };
        if hit {
            return true;
        }
        k = k + 1;
    }
    false
}

/// Drop unreachable instructions and unreferenced labels.
fn eliminate_dead_code(instrs: &mut Vec<X86Instr>) -> (changed: bool)
    ensures
        (final(instrs)@, changed) == dead_code_pass(old(instrs)@),
{
    let ghost s = instrs@;
    let n = instrs.len();
    // remove unreachable blocks
    let mut reachable: Vec<X86Instr> = Vec::new();
    let mut can_emit = true;
    let mut k: usize = 0;
    while k < n
        invariant
            instrs@ == s,
            n == s.len(),
            k <= n,
            (reachable@, can_emit) == reachable_upto(s, k as int),
            reachable@.len() <= k,
        decreases n - k,
    {
        let instr = &instrs[k];
        if matches!(instr, X86Instr::Label(_)) {
            can_emit = true;
            reachable.push(instr.clone());
        } else if can_emit {
            let terminates = matches!(instr, X86Instr::Jmp(_) | X86Instr::Ret);
            reachable.push(instr.clone());
            if terminates {
                can_emit = false;
            }
        }
        k = k + 1;
    }
    // delete unreferenced labels
    let ghost r1 = reachable@;
    let m = reachable.len();
    let mut kept: Vec<X86Instr> = Vec::new();
    let mut k: usize = 0;
    while k < m
        invariant
            reachable@ == r1,
            m == r1.len(),
            k <= m,
            kept@ == referenced_upto(r1, k as int),
            kept@.len() <= k,
        decreases m - k,
    {
        let drop_label = match &reachable[k] {
            X86Instr::Label(label) => !is_referenced(&reachable, label),
            _ => false,
        };
        if !drop_label {
            kept.push(reachable[k].clone());
        }
        k = k + 1;
    }
    let changed = m < n || kept.len() < m;
    *instrs = kept;
    changed
}

/// Apply local x86 control-flow simplifications: label merging, jump threading, removal
/// of redundant jumps, branch inversion and dead-code elimination, in that order.
/// Returns whether any of them changed the code.
pub fn simplify_control_flow(instrs: &mut Vec<X86Instr>) -> (changed: bool)
    ensures
        ({
            let p1 = merge_pass(old(instrs)@);
            let p2 = thread_pass(p1.0);
            let p3 = redundant_pass(p2.0);
            let p4 = inverted_from(p3.0, 0);
            let p5 = dead_code_pass(p4.0);
            &&& final(instrs)@ == p5.0
            &&& changed == (p1.1 || p2.1 || p3.1 || p4.1 || p5.1)
        }),
{
    let mut changed = false;
    changed = merge_consecutive_labels(instrs) || changed;
    changed = jump_threading(instrs) || changed;
    changed = remove_redundant_jumps(instrs) || changed;
    changed = branch_inversion(instrs) || changed;
    changed = eliminate_dead_code(instrs) || changed;
    changed
}

proof fn lemma_merged_len(s: Seq<X86Instr>, a: Seq<(String, String)>, n: int)
    requires
        0 <= n <= s.len(),
    ensures
        merged_upto(s, a, n).len() <= n,
    decreases n,
{
    if n > 0 {
        lemma_merged_len(s, a, n - 1);
    }
}

proof fn lemma_without_redundant_len(s: Seq<X86Instr>, n: int)
    requires
        0 <= n <= s.len(),
    ensures
        without_redundant_upto(s, n).len() <= n,
    decreases n,
{
    if n > 0 {
        lemma_without_redundant_len(s, n - 1);
    }
}

proof fn lemma_inverted_len(s: Seq<X86Instr>, i: int)
    requires
        0 <= i <= s.len(),
    ensures
        inverted_from(s, i).0.len() <= s.len() - i,
    decreases s.len() - i,
{
    if i < s.len() {
        if i + 2 < s.len() && inverted_branch(s[i], s[i + 1], s[i + 2]) is Some {
            lemma_inverted_len(s, i + 2);
        } else {
            lemma_inverted_len(s, i + 1);
        }
    }
}

proof fn lemma_reachable_len(s: Seq<X86Instr>, n: int)
    requires
        0 <= n <= s.len(),
    ensures
        reachable_upto(s, n).0.len() <= n,
    decreases n,
{
    if n > 0 {
        lemma_reachable_len(s, n - 1);
    }
}

proof fn lemma_referenced_len(r: Seq<X86Instr>, n: int)
    requires
        0 <= n <= r.len(),
    ensures
        referenced_upto(r, n).len() <= n,
    decreases n,
{
    if n > 0 {
        lemma_referenced_len(r, n - 1);
    }
}

/// No pass of control-flow simplification makes the code longer, and jump threading
/// keeps its length.
pub proof fn lemma_simplify_control_flow_never_grows(s: Seq<X86Instr>)
    ensures
        merge_pass(s).0.len() <= s.len(),
        thread_pass(s).0.len() == s.len(),
        redundant_pass(s).0.len() <= s.len(),
        inverted_from(s, 0).0.len() <= s.len(),
        dead_code_pass(s).0.len() <= s.len(),
        ({
            let p1 = merge_pass(s);
            let p2 = thread_pass(p1.0);
            let p3 = redundant_pass(p2.0);
            let p4 = inverted_from(p3.0, 0);
            let p5 = dead_code_pass(p4.0);
            p5.0.len() <= s.len()
        }),
{
    lemma_merged_len(s, label_aliases(s), s.len() as int);
    lemma_without_redundant_len(s, s.len() as int);
    lemma_inverted_len(s, 0);
    lemma_reachable_len(s, s.len() as int);
    let r1 = reachable_upto(s, s.len() as int).0;
    lemma_referenced_len(r1, r1.len() as int);
    let p1 = merge_pass(s);
    lemma_merged_len(s, label_aliases(s), s.len() as int);
    let p2 = thread_pass(p1.0);
    let p3 = redundant_pass(p2.0);
    lemma_without_redundant_len(p2.0, p2.0.len() as int);
    let p4 = inverted_from(p3.0, 0);
    lemma_inverted_len(p3.0, 0);
    lemma_reachable_len(p4.0, p4.0.len() as int);
    let q1 = reachable_upto(p4.0, p4.0.len() as int).0;
    lemma_referenced_len(q1, q1.len() as int);
}

} // verus!
