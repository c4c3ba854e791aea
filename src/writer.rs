use vstd::prelude::*;
use vstd::utf8::{encode_scalar, encode_utf8};
use crate::text::{is_whitespace, white_space};

verus! {

/// The UTF-8 encoding of `a + b` is the encoding of `a` followed by that of `b`.
pub proof fn lemma_encode_concat(a: Seq<char>, b: Seq<char>)
    ensures
        encode_utf8(a + b) == encode_utf8(a) + encode_utf8(b),
    decreases a.len(),
{
    if a.len() == 0 {
        assert(a + b =~= b);
        assert(encode_utf8(a) + encode_utf8(b) =~= encode_utf8(b));
    } else {
        assert((a + b).drop_first() =~= a.drop_first() + b);
        assert((a + b)[0] == a[0]);
        lemma_encode_concat(a.drop_first(), b);
        assert(encode_utf8(a + b) =~= encode_utf8(a) + encode_utf8(b));
    }
}

proof fn lemma_encode_push(s: Seq<char>, c: char)
    ensures
        encode_utf8(s.push(c)) == encode_utf8(s) + encode_scalar(c as u32),
{
    lemma_encode_concat(s, seq![c]);
    assert(s.push(c) =~= s + seq![c]);
    let e = Seq::<char>::empty();
    assert(seq![c].drop_first() =~= e);
    assert(seq![c][0] == c);
    assert(encode_utf8(e) =~= Seq::<u8>::empty());
    assert(encode_utf8(seq![c]) == encode_scalar(c as u32) + encode_utf8(e));
    assert(encode_utf8(seq![c]) =~= encode_scalar(c as u32));
}

/// The number of bytes in the UTF-8 encoding of `c`.
fn utf8_width(c: char) -> (r: u64)
    ensures
        r == encode_scalar(c as u32).len(),
        1 <= r <= 4,
{
    let v = c as u32;
    if v <= 0x7F {
        1
    } else if v <= 0x7FF {
        2
    } else if v <= 0xFFFF {
        proof {
            vstd::utf8::char_is_scalar(c);
        }
        3
    } else {
        4
    }
}

/// The UTF-8 encoding of `c`.
pub fn utf8_bytes(c: char) -> (r: Vec<u8>)
    ensures
        r@ == encode_scalar(c as u32),
{
    let v = c as u32;
    proof {
        vstd::utf8::char_is_scalar(c);
    }
    if v <= 0x7F {
        let r = vec![(v & 0x7F) as u8];
        assert(r@ =~= encode_scalar(v));
        r
    } else if v <= 0x7FF {
        let r = vec![0xC0 | ((v >> 6) & 0x1F) as u8, 0x80 | (v & 0x3F) as u8];
        assert(r@ =~= encode_scalar(v));
        r
    } else if v <= 0xFFFF {
        let r = vec![
            0xE0 | ((v >> 12) & 0x0F) as u8,
            0x80 | ((v >> 6) & 0x3F) as u8,
            0x80 | (v & 0x3F) as u8,
        ];
        assert(r@ =~= encode_scalar(v));
        r
    } else {
        let r = vec![
            0xF0 | ((v >> 18) & 0x7) as u8,
            0x80 | ((v >> 12) & 0x3F) as u8,
            0x80 | ((v >> 6) & 0x3F) as u8,
            0x80 | (v & 0x3F) as u8,
        ];
        assert(r@ =~= encode_scalar(v));
        r
    }
}

/// The length of `s` once trailing whitespace is dropped.
pub open spec fn trimmed_len(s: Seq<char>) -> nat
    decreases s.len(),
{
    if s.len() == 0 {
        0
    } else if white_space(s.last()) {
        trimmed_len(s.drop_last())
    } else {
        s.len()
    }
}

/// The length of `s` up to and including its last whitespace character; 0 if it has none.
pub open spec fn word_start(s: Seq<char>) -> nat
    decreases s.len(),
{
    if s.len() == 0 {
        0
    } else if white_space(s.last()) {
        s.len()
    } else {
        word_start(s.drop_last())
    }
}

/// What deleting a character keeps of `s`: all but its last character.
pub open spec fn delete_char_spec(s: Seq<char>) -> Seq<char> {
    if s.len() == 0 {
        s
    } else {
        s.drop_last()
    }
}

/// What deleting a word keeps of `s`: trailing whitespace goes, then the run of
/// non-whitespace before it.
pub open spec fn delete_word_spec(s: Seq<char>) -> Seq<char> {
    let t = s.take(trimmed_len(s) as int);
    t.take(word_start(t) as int)
}

proof fn lemma_trimmed_len_bound(s: Seq<char>)
    ensures
        trimmed_len(s) <= s.len(),
    decreases s.len(),
{
    if s.len() > 0 {
        lemma_trimmed_len_bound(s.drop_last());
    }
}

proof fn lemma_word_start_bound(s: Seq<char>)
    ensures
        word_start(s) <= s.len(),
    decreases s.len(),
{
    if s.len() > 0 {
        lemma_word_start_bound(s.drop_last());
    }
}

/// The journal's in-memory side: the file length when the session opened, and the
/// characters appended since, which are exactly the file's bytes past that point.
pub struct Writer {
    append_start: u64,
    output_string: Vec<char>,
    file_len: u64,
}

impl Writer {
    /// The file length when the session opened; no byte before it is ever changed.
    pub closed spec fn start(&self) -> nat {
        self.append_start as nat
    }

    /// The characters written in this session.
    pub closed spec fn buffer(&self) -> Seq<char> {
        self.output_string@
    }

    /// The length that the file has: the start plus the bytes of the buffer.
    pub open spec fn spec_file_len(&self) -> nat {
        self.start() + encode_utf8(self.buffer()).len()
    }

    pub closed spec fn wf(&self) -> bool {
        &&& self.file_len as nat == self.spec_file_len()
    }

    /// A session on a file that is `append_start` bytes long.
    pub fn initialize(append_start: u64) -> (w: Writer)
        ensures
            w.wf(),
            w.start() == append_start,
            w.buffer() == Seq::<char>::empty(),
            w.spec_file_len() == append_start,
    {
        let w = Writer { append_start, output_string: Vec::new(), file_len: append_start };
        assert(encode_utf8(w.output_string@) =~= Seq::<u8>::empty());
        w
    }

    /// The length that the file has.
    pub fn file_len(&self) -> (r: u64)
        requires
            self.wf(),
        ensures
            r == self.spec_file_len(),
    {
        self.file_len
    }

    /// The characters written in this session.
    pub fn text(&self) -> (r: Vec<char>)
        ensures
            r@ == self.buffer(),
    {
        self.output_string.clone()
    }

    /// Records `chr` at the end of the journal. Returns its bytes, which go at the end of
    /// the file.
    pub fn append(&mut self, chr: char) -> (bytes: Vec<u8>)
        requires
            old(self).wf(),
            old(self).spec_file_len() + 4 <= u64::MAX,
        ensures
            final(self).wf(),
            final(self).start() == old(self).start(),
            final(self).buffer() == old(self).buffer().push(chr),
            bytes@ == encode_scalar(chr as u32),
            final(self).spec_file_len() == old(self).spec_file_len() + bytes@.len(),
    {
        let bytes = utf8_bytes(chr);
        let w = utf8_width(chr);
        proof {
            lemma_encode_push(self.output_string@, chr);
        }
        self.output_string.push(chr);
        self.file_len = self.file_len + w;
        bytes
    }

    /// Keeps the first `new_len` characters of the buffer. Returns the length that the file
    /// must be cut to, which is never below the start.
    fn truncate(&mut self, new_len: usize) -> (r: u64)
        requires
            old(self).wf(),
            new_len <= old(self).buffer().len(),
        ensures
            final(self).wf(),
            final(self).start() == old(self).start(),
            final(self).buffer() == old(self).buffer().take(new_len as int),
            r == final(self).spec_file_len(),
            r >= final(self).start(),
    {
        while self.output_string.len() > new_len
            invariant
                self.wf(),
                self.start() == old(self).start(),
                new_len <= self.buffer().len() <= old(self).buffer().len(),
                self.buffer() == old(self).buffer().take(self.buffer().len() as int),
            decreases self.output_string.len(),
        {
            let n = self.output_string.len();
            let last = self.output_string[n - 1];
            let w = utf8_width(last);
            proof {
                let b = self.output_string@;
                assert(b =~= b.drop_last().push(last));
                lemma_encode_push(b.drop_last(), last);
            }
            self.output_string.pop();
            self.file_len = self.file_len - w;
            assert(self.buffer() =~= old(self).buffer().take(self.buffer().len() as int));
        }
        assert(self.buffer() =~= old(self).buffer().take(new_len as int));
        self.file_len
    }

    /// Removes the last character, if there is one. Returns the length that the file must
    /// be cut to.
    pub fn delete_char(&mut self) -> (r: u64)
        requires
            old(self).wf(),
        ensures
            final(self).wf(),
            final(self).start() == old(self).start(),
            final(self).buffer() == delete_char_spec(old(self).buffer()),
            r == final(self).spec_file_len(),
            r >= final(self).start(),
            old(self).buffer().len() > 0 ==> r + encode_scalar(old(self).buffer().last() as u32).len()
                == old(self).spec_file_len(),
            old(self).buffer().len() == 0 ==> r == old(self).spec_file_len(),
    {
        proof {
            let b = old(self).buffer();
            if b.len() > 0 {
                assert(b =~= b.drop_last().push(b.last()));
                lemma_encode_push(b.drop_last(), b.last());
            }
        }
        let len = self.output_string.len();
        if len > 0 {
            let r = self.truncate(len - 1);
            assert(old(self).buffer().take(len - 1) =~= old(self).buffer().drop_last());
            r
        } else {
            let r = self.truncate(len);
            assert(old(self).buffer().take(0) =~= old(self).buffer());
            r
        }
    }

    /// Removes the trailing whitespace and then the word before it. Returns the length that
    /// the file must be cut to.
    pub fn delete_word(&mut self) -> (r: u64)
        requires
            old(self).wf(),
        ensures
            final(self).wf(),
            final(self).start() == old(self).start(),
            final(self).buffer() == delete_word_spec(old(self).buffer()),
            r == final(self).spec_file_len(),
            r >= final(self).start(),
    {
        let ghost b = self.output_string@;
        let mut end: usize = self.output_string.len();
        assert(b.take(end as int) =~= b);
        while end > 0 && is_whitespace(self.output_string[end - 1])
            invariant
                end <= b.len(),
                self.output_string@ == b,
                trimmed_len(b) == trimmed_len(b.take(end as int)),
            decreases end,
        {
            proof {
                assert(b.take(end as int).drop_last() =~= b.take(end - 1));
            }
            end = end - 1;
        }
        proof {
            let t = b.take(end as int);
            if end > 0 {
                assert(t.last() == b[end - 1]);
            }
            assert(trimmed_len(t) == end);
        }
        let mut cut: usize = end;
        while cut > 0 && !is_whitespace(self.output_string[cut - 1])
            invariant
                cut <= end <= b.len(),
                self.output_string@ == b,
                trimmed_len(b) == end,
                word_start(b.take(end as int)) == word_start(b.take(cut as int)),
            decreases cut,
        {
            proof {
                assert(b.take(cut as int).drop_last() =~= b.take(cut - 1));
            }
            cut = cut - 1;
        }
        proof {
            let u = b.take(cut as int);
            if cut > 0 {
                assert(u.last() == b[cut - 1]);
            }
            assert(word_start(u) == cut);
            assert(b.take(end as int).take(cut as int) =~= b.take(cut as int));
        }
        self.truncate(cut)
    }
}

/// `after` is `before` with one character or one word deleted.
pub open spec fn is_deletion(before: Writer, after: Writer) -> bool {
    &&& after.start() == before.start()
    &&& after.buffer() == delete_char_spec(before.buffer()) || after.buffer() == delete_word_spec(
        before.buffer(),
    )
}

proof fn lemma_deletion_prefix(s: Seq<char>)
    ensures
        delete_char_spec(s).len() <= s.len(),
        delete_word_spec(s).len() <= s.len(),
        s.len() == 0 ==> delete_char_spec(s) == s && delete_word_spec(s) == s,
{
    lemma_trimmed_len_bound(s);
    let t = s.take(trimmed_len(s) as int);
    lemma_word_start_bound(t);
    if s.len() == 0 {
        assert(t =~= s);
        assert(t.take(word_start(t) as int) =~= s);
    }
}

/// However many deletions follow one another, the session's start stays where it was and
/// the file never gets shorter than it; once the buffer is empty, further deletions leave
/// it empty, with the file exactly at the start.
pub proof fn lemma_deletion_floor(steps: Seq<Writer>)
    requires
        steps.len() >= 1,
        forall|i: int| 0 <= i < steps.len() - 1 ==> is_deletion(#[trigger] steps[i], steps[i + 1]),
    ensures
        forall|i: int|
            0 <= i < steps.len() ==> #[trigger] steps[i].start() == steps[0].start()
                && steps[i].spec_file_len() >= steps[0].start(),
        forall|i: int, j: int|
            #![trigger steps[i], steps[j]]
            0 <= i <= j < steps.len() && steps[i].buffer().len() == 0 ==> steps[j].buffer().len()
                == 0 && steps[j].spec_file_len() == steps[0].start(),
    decreases steps.len(),
{
    if steps.len() > 1 {
        let init = steps.drop_last();
        assert forall|i: int| 0 <= i < init.len() - 1 implies is_deletion(#[trigger] init[i], init[i + 1]) by {
            assert(init[i] == steps[i] && init[i + 1] == steps[i + 1]);
        }
        lemma_deletion_floor(init);
        let n = steps.len() - 1;
        assert(is_deletion(steps[n - 1], steps[n]));
        assert(init[n - 1] == steps[n - 1]);
        lemma_deletion_prefix(steps[n - 1].buffer());
        assert forall|i: int, j: int|
            #![trigger steps[i], steps[j]]
            0 <= i <= j < steps.len() && steps[i].buffer().len() == 0 implies steps[j].buffer().len()
                == 0 && steps[j].spec_file_len() == steps[0].start() by {
            if j < n {
                assert(init[i] == steps[i] && init[j] == steps[j]);
            } else if i < n {
                assert(init[i] == steps[i]);
                assert(init[n - 1].buffer().len() == 0);
            }
            assert(encode_utf8(steps[j].buffer()) =~= Seq::<u8>::empty());
        }
        assert forall|i: int| 0 <= i < steps.len() implies #[trigger] steps[i].start() == steps[0].start()
            && steps[i].spec_file_len() >= steps[0].start() by {
            if i < n {
                assert(init[i] == steps[i]);
            }
        }
    }
}

} // verus!
