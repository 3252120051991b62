use vstd::prelude::*;

use crate::error::Error;

verus! {

/// Session state: the history of computed values, addressable by position
/// or by the hexadecimal form of their slot key; the list of submitted
/// expressions; and the line being edited, owned by the caller's loop.
///
/// Values are bit patterns of IEEE binary64 numbers; this type never
/// interprets them.
pub struct Context {
    pub current_index: usize,
    pub values: Vec<u64>,
    pub history: Vec<String>,
    pub history_offset: usize,
    pub expression: String,
}

/// A name made of marker bytes only (possibly none): a positional
/// back-reference rather than a named slot.
pub open spec fn all_marker(s: Seq<u8>) -> bool {
    forall|i: int| 0 <= i < s.len() ==> s[i] == 0x24u8
}

/// A byte that can appear in the canonical hexadecimal form of a slot key:
/// a decimal digit or a lowercase hexadecimal letter.
pub open spec fn is_lower_hex(b: u8) -> bool {
    (0x30 <= b && b <= 0x39) || (0x61 <= b && b <= 0x66)
}

pub open spec fn lower_hex_value(b: u8) -> int {
    if 0x30 <= b && b <= 0x39 {
        b - 0x30
    } else if 0x61 <= b && b <= 0x66 {
        b - 0x61 + 10
    } else {
        99
    }
}

/// The canonical hexadecimal form of a slot key: at least one digit, all
/// lowercase, no leading zero except for the key zero itself.
pub open spec fn canonical_hex(s: Seq<u8>) -> bool {
    &&& s.len() > 0
    &&& forall|i: int| 0 <= i < s.len() ==> is_lower_hex(#[trigger] s[i])
    &&& (s[0] != 0x30u8 || s.len() == 1)
}

/// The number a string of hexadecimal digits denotes.
pub open spec fn hex_num(s: Seq<u8>) -> int
    decreases s.len(),
{
    if s.len() == 0 {
        0
    } else {
        hex_num(s.drop_last()) * 16 + lower_hex_value(s.last())
    }
}

pub open spec fn pow16(k: nat) -> int
    decreases k,
{
    if k == 0 {
        1
    } else {
        16 * pow16((k - 1) as nat)
    }
}

proof fn lemma_pow16_le(a: nat, b: nat)
    requires
        a <= b,
    ensures
        pow16(a) <= pow16(b),
        pow16(a) >= 1,
    decreases b,
{
    if b > 0 {
        if a == b {
            lemma_pow16_le((a - 1) as nat, (b - 1) as nat);
        } else {
            lemma_pow16_le(a, (b - 1) as nat);
        }
    }
}

/// All-hexadecimal strings denote less than sixteen to their length.
proof fn lemma_hex_num_upper(s: Seq<u8>)
    requires
        forall|i: int| 0 <= i < s.len() ==> is_lower_hex(#[trigger] s[i]),
    ensures
        0 <= hex_num(s) < pow16(s.len()),
    decreases s.len(),
{
    if s.len() > 0 {
        assert(forall|i: int|
            0 <= i < s.drop_last().len() ==> is_lower_hex(#[trigger] s.drop_last()[i]));
        lemma_hex_num_upper(s.drop_last());
        assert(0 <= lower_hex_value(s.last()) <= 15);
    }
}

/// A hexadecimal string that does not start with a zero digit denotes at
/// least sixteen to one less than its length.
proof fn lemma_hex_num_lower(s: Seq<u8>)
    requires
        s.len() >= 1,
        forall|i: int| 0 <= i < s.len() ==> is_lower_hex(#[trigger] s[i]),
        s[0] != 0x30u8,
    ensures
        hex_num(s) >= pow16((s.len() - 1) as nat),
    decreases s.len(),
{
    if s.len() == 1 {
        assert(hex_num(s) == hex_num(s.drop_last()) * 16 + lower_hex_value(s.last()));
        assert(hex_num(s.drop_last()) == 0);
        assert(lower_hex_value(s[0]) >= 1);
    } else {
        let head = s.drop_last();
        assert(head[0] == s[0]);
        assert(forall|i: int| 0 <= i < head.len() ==> is_lower_hex(#[trigger] head[i]));
        lemma_hex_num_lower(head);
        assert(pow16((s.len() - 1) as nat) == 16 * pow16((s.len() - 2) as nat));
        assert(is_lower_hex(s.last()));
        assert(lower_hex_value(s.last()) >= 0);
        assert(hex_num(s) == hex_num(head) * 16 + lower_hex_value(s.last()));
        assert(hex_num(head) * 16 >= pow16((s.len() - 2) as nat) * 16);
    }
}

/// Whether a variable name resolves in a context: a name of marker bytes
/// only reaches back past as many values as it has bytes; any other name
/// is the canonical hexadecimal form of an existing slot key, or fails.
pub open spec fn variable_ok(context: Context, name: Seq<u8>) -> bool {
    if all_marker(name) {
        name.len() + 1 <= context.index()
    } else {
        canonical_hex(name) && hex_num(name) < context.values_view().len()
    }
}

/// The value a resolving variable name denotes.
pub open spec fn variable_value(context: Context, name: Seq<u8>) -> u64 {
    if all_marker(name) {
        context.values_view()[context.index() - name.len() - 1]
    } else {
        context.values_view()[hex_num(name)]
    }
}

/// The error a non-resolving variable name produces: an offset failure for
/// a back-reference, an undefined-variable failure carrying the name for
/// anything else.
pub open spec fn variable_error_is(context: Context, name: Seq<u8>, e: Error) -> bool {
    &&& !variable_ok(context, name)
    &&& if all_marker(name) {
        e == Error::InvalidEvaluationOffset
    } else {
        e matches Error::UndefinedVariable(n) && n@ == name
    }
}

impl Context {
    pub open spec fn index(self) -> int {
        self.current_index as int
    }

    pub open spec fn values_view(self) -> Seq<u64> {
        self.values@
    }

    pub open spec fn history_view(self) -> Seq<String> {
        self.history@
    }

    /// The slot counter always equals the number of stored values, so the
    /// slot at the counter is always free.
    pub open spec fn wf(self) -> bool {
        self.index() == self.values_view().len()
    }

    pub fn new() -> (context: Context)
        ensures
            context.wf(),
            context.index() == 0,
            context.values_view() == Seq::<u64>::empty(),
            context.history_view() == Seq::<String>::empty(),
            context.history_offset == 0,
            context.expression@ == Seq::<char>::empty(),
    {
        Context {
            current_index: 0,
            values: Vec::new(),
            history: Vec::new(),
            history_offset: 0,
            expression: String::new(),
        }
    }

    /// Stores a computed value under the next free slot key and returns
    /// that key. Keys are assigned in increasing order and never reused.
    pub fn push_value(&mut self, value: u64) -> (key: usize)
        requires
            old(self).wf(),
        ensures
            final(self).wf(),
            key == old(self).index(),
            final(self).index() == old(self).index() + 1,
            final(self).values_view() == old(self).values_view().push(value),
            final(self).history_view() == old(self).history_view(),
            final(self).history_offset == old(self).history_offset,
            final(self).expression == old(self).expression,
    {
        let key = self.current_index;
        self.values.push(value);
        self.current_index = self.values.len();
        key
    }

    /// Resolves a variable name: a run of marker bytes reaches back
    /// positionally, anything else addresses a slot by the canonical
    /// hexadecimal form of its key.
    pub fn variable(&self, name: &[u8]) -> (r: Result<u64, Error>)
        requires
            self.wf(),
        ensures
            match r {
                Ok(v) => variable_ok(*self, name@) && v == variable_value(*self, name@),
                Err(e) => variable_error_is(*self, name@, e),
            },
    {
        let mut probe: usize = 0;
        while probe < name.len() && name[probe] == 0x24
            invariant
                probe <= name@.len(),
                forall|j: int| 0 <= j < probe ==> name@[j] == 0x24u8,
            decreases name@.len() - probe,
        {
            probe += 1;
        }
        if probe == name.len() {
            // Positional back-reference.
            if name.len() < self.current_index {
                let index = self.current_index - name.len() - 1;
                Ok(self.values[index])
            } else {
                Err(Error::InvalidEvaluationOffset)
            }
        } else {
            assert(!all_marker(name@));
            // Named slot: accept exactly the canonical hexadecimal form.
            if name[0] == 0x30 && name.len() > 1 {
                return Err(Error::UndefinedVariable(vstd::slice::slice_to_vec(name)));
            }
            if name.len() > 16 {
                let stored = self.values.len();
                proof {
                    if canonical_hex(name@) {
                        assert(name@[0] != 0x30u8);
                        lemma_hex_num_lower(name@);
                        lemma_pow16_le(16, (name@.len() - 1) as nat);
                        assert(pow16(16) == 0x10000000000000000) by {
                            reveal_with_fuel(pow16, 17);
                        }
                        assert(stored < 0x10000000000000000);
                    }
                }
                return Err(Error::UndefinedVariable(vstd::slice::slice_to_vec(name)));
            }
            let mut acc: u64 = 0;
            let mut i: usize = 0;
            while i < name.len()
                invariant
                    i <= name@.len() <= 16,
                    name@.len() >= 1,
                    !all_marker(name@),
                    name@[0] != 0x30u8 || name@.len() == 1,
                    forall|j: int| 0 <= j < i ==> is_lower_hex(#[trigger] name@[j]),
                    acc == hex_num(name@.take(i as int)),
                    0 <= acc,
                decreases name@.len() - i,
            {
                let b = name[i];
                let d: u64 = if 0x30 <= b && b <= 0x39 {
                    (b - 0x30) as u64
                } else if 0x61 <= b && b <= 0x66 {
                    (b - 0x61) as u64 + 10
                } else {
                    return Err(Error::UndefinedVariable(vstd::slice::slice_to_vec(name)));
                };
                proof {
                    assert(forall|j: int|
                        0 <= j < name@.take(i as int).len() ==> is_lower_hex(
                            #[trigger] name@.take(i as int)[j],
                        ));
                    lemma_hex_num_upper(name@.take(i as int));
                    lemma_pow16_le(i as nat, 15);
                    assert(pow16(15) == 0x1000000000000000) by {
                        reveal_with_fuel(pow16, 16);
                    }
                    assert(name@.take(i as int + 1).drop_last() =~= name@.take(i as int));
                }
                acc = acc * 16 + d;
                i += 1;
            }
            proof {
                assert(name@.take(name@.len() as int) =~= name@);
            }
            if acc < self.values.len() as u64 {
                Ok(self.values[acc as usize])
            } else {
                Err(Error::UndefinedVariable(vstd::slice::slice_to_vec(name)))
            }
        }
    }

    /// Records a submitted expression and resets the recall cursor to the
    /// most recent entry.
    pub fn push_history(&mut self, expression: String)
        ensures
            final(self).history_view() == old(self).history_view().push(expression),
            final(self).history_offset == 0,
            final(self).index() == old(self).index(),
            final(self).values_view() == old(self).values_view(),
            final(self).expression == old(self).expression,
            old(self).wf() ==> final(self).wf(),
    {
        self.history.push(expression);
        self.history_offset = 0;
    }

    /// The recalled entry at the current cursor offset: the most recent
    /// for offset one, older ones for larger offsets, none for offset zero
    /// or past the oldest entry.
    pub fn history(&self) -> (r: Option<String>)
        ensures
            match r {
                Some(entry) => {
                    &&& 1 <= self.history_offset <= self.history_view().len()
                    &&& entry == self.history_view()[self.history_view().len()
                        - self.history_offset]
                },
                None => self.history_offset == 0 || self.history_offset
                    > self.history_view().len(),
            },
    {
        if 1 <= self.history_offset && self.history_offset <= self.history.len() {
            let index = self.history.len() - self.history_offset;
            Some(self.history[index].clone())
        } else {
            None
        }
    }
}

impl Default for Context {
    /// A fresh session: no values, no history, an empty line.
    fn default() -> (context: Context)
        ensures
            context.wf(),
            context.index() == 0,
            context.values_view() == Seq::<u64>::empty(),
            context.history_view() == Seq::<String>::empty(),
            context.history_offset == 0,
            context.expression@ == Seq::<char>::empty(),
    {
        Context::new()
    }
}

} // verus!
