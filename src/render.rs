use crate::strands::Hair;
use vstd::prelude::*;
use vstd::string::StringExecFns;

verus! {

/// `piece` written `count` times in a row.
pub open spec fn repeated(piece: Seq<char>, count: nat) -> Seq<char>
    decreases count,
{
    if count == 0 {
        Seq::empty()
    } else {
        repeated(piece, (count - 1) as nat) + piece
    }
}

/// The line that draws a strand of the given length: one glyph per unit.
pub open spec fn strand_run(length: nat) -> Seq<char> {
    Seq::new(length, |i: int| '-')
}

/// The whole head of hair as text: each strand's line, each ended by a newline.
pub open spec fn text_of(lengths: Seq<usize>) -> Seq<char>
    decreases lengths.len(),
{
    if lengths.len() == 0 {
        Seq::empty()
    } else {
        text_of(lengths.drop_last()) + strand_run(lengths.last() as nat) + seq!['\n']
    }
}

/// A single character repeated is a run of that character.
pub proof fn lemma_repeated_char(c: char, count: nat)
    ensures
        repeated(seq![c], count) == Seq::new(count, |i: int| c),
    decreases count,
{
    if count > 0 {
        lemma_repeated_char(c, (count - 1) as nat);
        assert(repeated(seq![c], count) =~= Seq::new(count, |i: int| c));
    } else {
        assert(repeated(seq![c], count) =~= Seq::new(count, |i: int| c));
    }
}

/// `piece` written `count` times in a row.
pub fn repeat_text(piece: &str, count: usize) -> (r: String)
    ensures
        r@ == repeated(piece@, count as nat),
{
    let mut out = String::new();
    let mut i: usize = 0;
    while i < count
        invariant
            0 <= i <= count,
            out@ == repeated(piece@, i as nat),
        decreases count - i,
    {
        out.append(piece);
        i = i + 1;
    }
    out
}

/// The line that draws a strand of the given length.
pub fn strand_line(length: usize) -> (r: String)
    ensures
        r@ == strand_run(length as nat),
{
    let glyph = "-";
    proof {
        reveal_strlit("-");
        assert(glyph@ =~= seq!['-']);
        lemma_repeated_char('-', length as nat);
    }
    let r = repeat_text(glyph, length);
    assert(r@ =~= strand_run(length as nat));
    r
}

/// A divider line `length` bytes wide: `name`, a space, then `symbol` as many
/// times as fill the rest.
pub fn get_named_divider(name: &str, symbol: &str, length: usize) -> (r: String)
    requires
        name.len() < length,
    ensures
        r@ == name@ + seq![' '] + repeated(symbol@, (length - name.len() - 1) as nat),
{
    let space = " ";
    proof {
        reveal_strlit(" ");
        assert(space@ =~= seq![' ']);
    }
    let mut header = String::from_str(name);
    header.append(space);
    let rest_length = length - name.len() - 1;
    let divider = repeat_text(symbol, rest_length);
    header.append(divider.as_str());
    header
}

impl Hair {
    /// One line per strand, in order, each drawing that strand.
    pub fn render(&self) -> (r: Vec<String>)
        ensures
            r@.len() == self@.len(),
            forall|i: int| 0 <= i < self@.len() ==> #[trigger] r@[i]@ == strand_run(self@[i] as nat),
    {
        let lengths = self.strand_lengths();
        let n = lengths.len();
        let mut lines: Vec<String> = Vec::new();
        let mut i: usize = 0;
        while i < n
            invariant
                n == self@.len(),
                lengths@ == self@,
                0 <= i <= n,
                lines@.len() == i,
                forall|j: int| 0 <= j < i ==> #[trigger] lines@[j]@ == strand_run(self@[j] as nat),
            decreases n - i,
        {
            lines.push(strand_line(lengths[i]));
            i = i + 1;
        }
        lines
    }

    /// The whole head of hair as text, one line per strand.
    pub fn to_text(&self) -> (r: String)
        ensures
            r@ == text_of(self@),
    {
        let newline = "\n";
        proof {
            reveal_strlit("\n");
            assert(newline@ =~= seq!['\n']);
        }
        let lengths = self.strand_lengths();
        let n = lengths.len();
        let mut text = String::new();
        let mut i: usize = 0;
        while i < n
            invariant
                n == self@.len(),
                lengths@ == self@,
                newline@ == seq!['\n'],
                0 <= i <= n,
                text@ == text_of(self@.take(i as int)),
            decreases n - i,
        {
            let line = strand_line(lengths[i]);
            text.append(line.as_str());
            text.append(newline);
            assert(self@.take(i as int + 1).drop_last() =~= self@.take(i as int));
            assert(self@.take(i as int + 1).last() == self@[i as int]);
            assert(text_of(self@.take(i as int + 1)) == text_of(self@.take(i as int))
                + strand_run(self@[i as int] as nat) + seq!['\n']);
            i = i + 1;
        }
        assert(self@.take(n as int) =~= self@);
        text
    }
}

} // verus!
