use vstd::prelude::*;
use crate::error::{ConfigError, ConfigErrorView};
use crate::text::push_char;

verus! {

/// The modifier keys that take part in a keyboard shortcut.
#[derive(Clone, Copy, Debug, PartialEq, Eq, Hash, Structural)]
pub struct ModKeys {
    pub ctrl: bool,
    pub shift: bool,
}

/// A modifier set together with exactly one key character.
#[derive(Clone, Copy, Debug, PartialEq, Eq, Hash, Structural)]
pub struct KeyboardShortcut {
    pub mod_keys: ModKeys,
    pub key: char,
}

/// The pieces of `s` between its `-` separators, in order; there is always at least one.
pub open spec fn split_dash(s: Seq<char>) -> Seq<Seq<char>>
    decreases s.len(),
{
    if s.len() == 0 {
        seq![Seq::empty()]
    } else {
        let init = split_dash(s.drop_last());
        if s.last() == '-' {
            init.push(Seq::empty())
        } else {
            init.update(init.len() - 1, init.last().push(s.last()))
        }
    }
}

/// A modifier token: `C` (control), `S` (shift), or empty.
pub open spec fn is_modifier(seg: Seq<char>) -> bool {
    seg == seq!['C'] || seg == seq!['S'] || seg.len() == 0
}

/// The first of `segs` that is not a modifier token, if any.
pub open spec fn first_invalid(segs: Seq<Seq<char>>) -> Option<Seq<char>>
    decreases segs.len(),
{
    if segs.len() == 0 {
        None
    } else {
        match first_invalid(segs.drop_last()) {
            Some(m) => Some(m),
            None => if is_modifier(segs.last()) {
                None
            } else {
                Some(segs.last())
            },
        }
    }
}

/// The shortcut with the modifiers named among `mods` and the given key.
pub open spec fn shortcut_of(mods: Seq<Seq<char>>, key: char) -> KeyboardShortcut {
    KeyboardShortcut {
        mod_keys: ModKeys { ctrl: mods.contains(seq!['C']), shift: mods.contains(seq!['S']) },
        key,
    }
}

/// What decoding the shortcut text `s` gives. Every segment but the last is a modifier
/// token; the last is the key, which must be one character. An empty last segment right
/// after an empty one stands for the key `-` itself.
pub open spec fn decode_spec(s: Seq<char>) -> Result<KeyboardShortcut, ConfigErrorView> {
    let segs = split_dash(s);
    let mods = segs.drop_last();
    let last = segs.last();
    match first_invalid(mods) {
        Some(m) => Err(ConfigErrorView::InvalidModifier(m)),
        None => if last.len() == 1 {
            Ok(shortcut_of(mods, last[0]))
        } else if last.len() == 0 && segs.len() >= 2 && segs[segs.len() - 2].len() == 0 {
            Ok(shortcut_of(mods, '-'))
        } else {
            Err(ConfigErrorView::InvalidKey(last))
        },
    }
}

/// The canonical text of a shortcut: `C-` when control is held, then `S-` when shift is
/// held, then the key.
pub open spec fn encode_spec(k: KeyboardShortcut) -> Seq<char> {
    (if k.mod_keys.ctrl { seq!['C', '-'] } else { Seq::empty() }) + (if k.mod_keys.shift {
        seq!['S', '-']
    } else {
        Seq::empty()
    }) + seq![k.key]
}

proof fn lemma_split_push(s: Seq<char>, c: char)
    ensures
        c == '-' ==> split_dash(s.push(c)) == split_dash(s).push(Seq::empty()),
        c != '-' ==> split_dash(s.push(c)) == split_dash(s).update(
            split_dash(s).len() - 1,
            split_dash(s).last().push(c),
        ),
{
    assert(s.push(c).drop_last() =~= s);
}

proof fn lemma_first_invalid_none(segs: Seq<Seq<char>>)
    requires
        forall|i: int| 0 <= i < segs.len() ==> is_modifier(#[trigger] segs[i]),
    ensures
        first_invalid(segs) is None,
    decreases segs.len(),
{
    if segs.len() > 0 {
        lemma_first_invalid_none(segs.drop_last());
    }
}

/// Decoding the canonical text of any shortcut gives that shortcut back.
pub proof fn lemma_decode_encode(k: KeyboardShortcut)
    ensures
        decode_spec(encode_spec(k)) == Ok::<KeyboardShortcut, ConfigErrorView>(k),
{
    let e: Seq<char> = Seq::empty();
    let mut s: Seq<char> = e;
    let mut segs: Seq<Seq<char>> = seq![e];
    let mut mods: Seq<Seq<char>> = Seq::empty();
    assert(split_dash(s) == segs);
    if k.mod_keys.ctrl {
        lemma_split_push(s, 'C');
        lemma_split_push(s.push('C'), '-');
        s = s.push('C').push('-');
        mods = mods.push(seq!['C']);
        assert(segs.update(0, e.push('C')) =~= mods);
        segs = mods.push(e);
    }
    if k.mod_keys.shift {
        lemma_split_push(s, 'S');
        lemma_split_push(s.push('S'), '-');
        s = s.push('S').push('-');
        assert(segs.update(segs.len() - 1, e.push('S')) =~= mods.push(seq!['S']));
        mods = mods.push(seq!['S']);
        segs = mods.push(e);
    }
    assert(split_dash(s) == mods.push(e));
    lemma_split_push(s, k.key);
    assert(s.push(k.key) =~= encode_spec(k));
    let full = mods.push(e);
    if k.key == '-' {
        let segs2 = full.push(e);
        assert(segs2.drop_last() =~= full);
        lemma_first_invalid_none(full);
        assert(full[full.len() - 1] == e);
        assert(full.contains(seq!['C']) == k.mod_keys.ctrl) by {
            if k.mod_keys.ctrl {
                assert(full[0] == seq!['C']);
            }
            if !k.mod_keys.ctrl {
                assert forall|j: int| 0 <= j < full.len() implies full[j] != seq!['C'] by {
                    if full[j] == seq!['C'] {
                        assert(full[j][0] == 'C');
                    }
                }
            }
        }
        assert(full.contains(seq!['S']) == k.mod_keys.shift) by {
            if k.mod_keys.shift {
                assert(full[full.len() - 2] == seq!['S']);
            }
            if !k.mod_keys.shift {
                assert forall|j: int| 0 <= j < full.len() implies full[j] != seq!['S'] by {
                    if full[j] == seq!['S'] {
                        assert(full[j][0] == 'S');
                    }
                }
            }
        }
    } else {
        let segs2 = full.update(full.len() - 1, e.push(k.key));
        assert(segs2 =~= mods.push(seq![k.key]));
        assert(segs2.drop_last() =~= mods);
        lemma_first_invalid_none(mods);
        assert(mods.contains(seq!['C']) == k.mod_keys.ctrl) by {
            if k.mod_keys.ctrl {
                assert(mods[0] == seq!['C']);
            }
            if !k.mod_keys.ctrl {
                assert forall|j: int| 0 <= j < mods.len() implies mods[j] != seq!['C'] by {
                    if mods[j] == seq!['C'] {
                        assert(mods[j][0] == 'C');
                    }
                }
            }
        }
        assert(mods.contains(seq!['S']) == k.mod_keys.shift) by {
            if k.mod_keys.shift {
                assert(mods[mods.len() - 1] == seq!['S']);
            }
            if !k.mod_keys.shift {
                assert forall|j: int| 0 <= j < mods.len() implies mods[j] != seq!['S'] by {
                    if mods[j] == seq!['S'] {
                        assert(mods[j][0] == 'S');
                    }
                }
            }
        }
    }
}

/// Encoding a decoded shortcut and decoding the text again gives the same shortcut: the
/// encoded text means what the accepted input meant, with the modifiers in canonical order.
pub proof fn lemma_round_trip(s: Seq<char>)
    requires
        decode_spec(s) is Ok,
    ensures
        decode_spec(encode_spec(decode_spec(s)->Ok_0)) == decode_spec(s),
{
    lemma_decode_encode(decode_spec(s)->Ok_0);
}

/// Text whose last two segments are empty never fails for want of a key: where its
/// modifiers are valid it decodes to the key `-`. In particular `--` decodes to `-` with
/// no modifiers.
pub proof fn lemma_trailing_dash(s: Seq<char>)
    requires
        s.len() >= 2,
        s[s.len() - 1] == '-',
        s[s.len() - 2] == '-',
    ensures
        !(decode_spec(s) is Err && decode_spec(s)->Err_0 is InvalidKey),
        decode_spec(s) is Ok ==> (decode_spec(s)->Ok_0).key == '-',
        decode_spec(seq!['-', '-']) == Ok::<KeyboardShortcut, ConfigErrorView>(
            KeyboardShortcut { mod_keys: ModKeys { ctrl: false, shift: false }, key: '-' },
        ),
{
    let t = s.drop_last();
    let u = t.drop_last();
    assert(s =~= t.push('-'));
    assert(t =~= u.push('-'));
    lemma_split_push(t, '-');
    lemma_split_push(u, '-');
    let segs = split_dash(s);
    assert(segs.len() >= 2 && segs[segs.len() - 2] == Seq::<char>::empty());
    let e: Seq<char> = Seq::empty();
    lemma_split_push(e, '-');
    lemma_split_push(e.push('-'), '-');
    assert(seq!['-', '-'] =~= e.push('-').push('-'));
    let d = split_dash(seq!['-', '-']);
    assert(d =~= seq![e, e, e]);
    assert(d.drop_last() =~= seq![e, e]);
    lemma_first_invalid_none(seq![e, e]);
    assert(!seq![e, e].contains(seq!['C'])) by {
        assert forall|j: int| 0 <= j < 2 implies seq![e, e][j] != seq!['C'] by {
            assert(seq![e, e][j].len() == 0);
        }
    }
    assert(!seq![e, e].contains(seq!['S'])) by {
        assert forall|j: int| 0 <= j < 2 implies seq![e, e][j] != seq!['S'] by {
            assert(seq![e, e][j].len() == 0);
        }
    }
}

impl KeyboardShortcut {
    /// Reads a shortcut from its text form, such as `C-S-c`, `c` or `C--`.
    pub fn decode(text: &str) -> (r: Result<KeyboardShortcut, ConfigError>)
        ensures
            match r {
                Ok(k) => decode_spec(text@) == Ok::<KeyboardShortcut, ConfigErrorView>(k),
                Err(e) => decode_spec(text@) == Err::<KeyboardShortcut, ConfigErrorView>(e@),
            },
    {
        let n = text.unicode_len();
        let mut ctrl = false;
        let mut shift = false;
        let mut bad: Option<ConfigError> = None;
        let mut start: usize = 0;
        let mut prev_empty = false;
        let ghost mut done: Seq<Seq<char>> = Seq::empty();
        let mut i: usize = 0;
        proof {
            assert(text@.take(0) =~= Seq::<char>::empty());
        }
        while i < n
            invariant
                n == text@.len(),
                start <= i <= n,
                split_dash(text@.take(i as int)) == done.push(text@.subrange(start as int, i as int)),
                ctrl == done.contains(seq!['C']),
                shift == done.contains(seq!['S']),
                prev_empty == (done.len() > 0 && done.last().len() == 0),
                match bad {
                    Some(e) => first_invalid(done) == Some(e@->InvalidModifier_0) && e@ is InvalidModifier,
                    None => first_invalid(done) is None,
                },
            decreases n - i,
        {
            let c = text.get_char(i);
            proof {
                assert(text@.take(i + 1) =~= text@.take(i as int).push(c));
                lemma_split_push(text@.take(i as int), c);
            }
            if c == '-' {
                let seg_len = i - start;
                let is_c = seg_len == 1 && text.get_char(start) == 'C';
                let is_s = seg_len == 1 && text.get_char(start) == 'S';
                let ghost seg = text@.subrange(start as int, i as int);
                proof {
                    if seg_len == 1 {
                        assert(seg =~= seq![text@[start as int]]);
                        assert(seq![text@[start as int]][0] == text@[start as int]);
                    }
                    if seg == seq!['C'] {
                        assert(seg.len() == 1 && seg[0] == 'C');
                    }
                    if seg == seq!['S'] {
                        assert(seg.len() == 1 && seg[0] == 'S');
                    }
                    assert(is_c == (seg == seq!['C']));
                    assert(is_s == (seg == seq!['S']));
                }
                if bad.is_none() && !(is_c || is_s || seg_len == 0) {
                    let tok = String::from_str(text.substring_char(start, i));
                    bad = Some(ConfigError::InvalidModifier(tok));
                }
                ctrl = ctrl || is_c;
                shift = shift || is_s;
                prev_empty = seg_len == 0;
                proof {
                    let nd = done.push(seg);
                    assert(nd.drop_last() =~= done);
                    assert(nd.last() == seg);
                    assert(nd.contains(seq!['C']) == (done.contains(seq!['C']) || seg =~= seq!['C'])) by {
                        if seg =~= seq!['C'] {
                            assert(nd[nd.len() - 1] == seq!['C']);
                        }
                        if nd.contains(seq!['C']) {
                            let j = choose|j: int| 0 <= j < nd.len() && nd[j] == seq!['C'];
                            if j < done.len() {
                                assert(done[j] == nd[j]);
                            }
                        }
                        if done.contains(seq!['C']) {
                            let j = choose|j: int| 0 <= j < done.len() && done[j] == seq!['C'];
                            assert(nd[j] == done[j]);
                        }
                    }
                    assert(nd.contains(seq!['S']) == (done.contains(seq!['S']) || seg =~= seq!['S'])) by {
                        if seg =~= seq!['S'] {
                            assert(nd[nd.len() - 1] == seq!['S']);
                        }
                        if nd.contains(seq!['S']) {
                            let j = choose|j: int| 0 <= j < nd.len() && nd[j] == seq!['S'];
                            if j < done.len() {
                                assert(done[j] == nd[j]);
                            }
                        }
                        if done.contains(seq!['S']) {
                            let j = choose|j: int| 0 <= j < done.len() && done[j] == seq!['S'];
                            assert(nd[j] == done[j]);
                        }
                    }
                    done = nd;
                    assert(text@.subrange(i + 1, i + 1) =~= Seq::<char>::empty());
                }
                start = i + 1;
            } else {
                proof {
                    assert(text@.subrange(start as int, i + 1) =~= text@.subrange(
                        start as int,
                        i as int,
                    ).push(c));
                }
            }
            i = i + 1;
        }
        proof {
            assert(text@.take(n as int) =~= text@);
            let segs = done.push(text@.subrange(start as int, n as int));
            assert(segs.drop_last() =~= done);
        }
        if let Some(e) = bad {
            return Err(e);
        }
        let key_len = n - start;
        if key_len == 1 {
            let key = text.get_char(start);
            Ok(KeyboardShortcut { mod_keys: ModKeys { ctrl, shift }, key })
        } else if key_len == 0 && prev_empty {
            Ok(KeyboardShortcut { mod_keys: ModKeys { ctrl, shift }, key: '-' })
        } else {
            let tok = String::from_str(text.substring_char(start, n));
            Err(ConfigError::InvalidKey(tok))
        }
    }

    /// The canonical text of this shortcut, which [`KeyboardShortcut::decode`] reads back.
    pub fn encode(&self) -> (r: String)
        ensures
            r@ == encode_spec(*self),
    {
        let mut r = String::new();
        if self.mod_keys.ctrl {
            push_char(&mut r, 'C');
            push_char(&mut r, '-');
        }
        if self.mod_keys.shift {
            push_char(&mut r, 'S');
            push_char(&mut r, '-');
        }
        push_char(&mut r, self.key);
        assert(r@ =~= encode_spec(*self));
        r
    }
}

} // verus!
