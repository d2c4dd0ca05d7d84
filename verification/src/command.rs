use vstd::prelude::*;

verus! {

/// The pieces with `sep` between each two of them, as one sequence.
pub open spec fn join(pieces: Seq<Seq<u8>>, sep: u8) -> Seq<u8>
    decreases pieces.len(),
{
    if pieces.len() == 0 {
        Seq::empty()
    } else if pieces.len() == 1 {
        pieces[0]
    } else {
        join(pieces.drop_last(), sep) + seq![sep] + pieces.last()
    }
}

/// Whether the pieces are what `sep` parts the bytes into: no piece holds
/// `sep`, and the pieces with `sep` between them are the bytes.
pub open spec fn is_split(pieces: Seq<Seq<u8>>, s: Seq<u8>, sep: u8) -> bool {
    &&& pieces.len() >= 1
    &&& forall|k: int| 0 <= k < pieces.len() ==> !(#[trigger] pieces[k]).contains(sep)
    &&& join(pieces, sep) == s
}

/// The views of the pieces.
pub open spec fn piece_views(pieces: Seq<Vec<u8>>) -> Seq<Seq<u8>> {
    Seq::new(pieces.len(), |i: int| pieces[i]@)
}

proof fn lemma_join_extend(pieces: Seq<Seq<u8>>, cur: Seq<u8>, b: u8, sep: u8)
    ensures
        join(pieces.push(cur.push(b)), sep) == join(pieces.push(cur), sep).push(b),
{
    let a = pieces.push(cur.push(b));
    let c = pieces.push(cur);
    if pieces.len() == 0 {
        assert(a[0] == cur.push(b));
        assert(c[0] == cur);
    } else {
        assert(a.drop_last() =~= pieces);
        assert(c.drop_last() =~= pieces);
        assert(join(pieces, sep) + seq![sep] + cur.push(b) =~= (join(pieces, sep) + seq![sep]
            + cur).push(b));
    }
}

proof fn lemma_join_begin(pieces: Seq<Seq<u8>>, cur: Seq<u8>, sep: u8)
    ensures
        join(pieces.push(cur).push(Seq::empty()), sep) == join(pieces.push(cur), sep).push(sep),
{
    let a = pieces.push(cur).push(Seq::empty());
    assert(a.drop_last() =~= pieces.push(cur));
    assert(join(pieces.push(cur), sep) + seq![sep] + Seq::<u8>::empty() =~= join(
        pieces.push(cur),
        sep,
    ).push(sep));
}

/// Parts bytes at every `sep`: for n occurrences there are n + 1 pieces,
/// some of which may be empty.
pub fn split(s: &[u8], sep: u8) -> (r: Vec<Vec<u8>>)
    ensures
        is_split(piece_views(r@), s@, sep),
{
    let mut pieces: Vec<Vec<u8>> = Vec::new();
    let mut cur: Vec<u8> = Vec::new();
    let mut i: usize = 0;
    assert(piece_views(pieces@).push(cur@) =~= seq![Seq::<u8>::empty()]);
    assert(s@.take(0) =~= Seq::<u8>::empty());
    while i < s.len()
        invariant
            i <= s.len(),
            !cur@.contains(sep),
            forall|k: int|
                0 <= k < pieces.len() ==> !(#[trigger] piece_views(pieces@)[k]).contains(sep),
            join(piece_views(pieces@).push(cur@), sep) == s@.take(i as int),
        decreases s.len() - i,
    {
        let b = s[i];
        let ghost done = piece_views(pieces@);
        proof {
            assert(s@.take(i + 1) =~= s@.take(i as int).push(b));
        }
        if b == sep {
            proof {
                lemma_join_begin(done, cur@, sep);
            }
            pieces.push(cur);
            cur = Vec::new();
            proof {
                assert(piece_views(pieces@) =~= done.push(pieces@[done.len() as int]@));
                assert forall|k: int| 0 <= k < pieces.len() implies !(#[trigger] piece_views(
                    pieces@,
                )[k]).contains(sep) by {
                    if k < done.len() {
                        assert(piece_views(pieces@)[k] == done[k]);
                    }
                }
            }
        } else {
            proof {
                lemma_join_extend(done, cur@, b, sep);
            }
            let ghost before = cur@;
            cur.push(b);
            proof {
                assert forall|j: int| 0 <= j < cur@.len() implies cur@[j] != sep by {
                    if j < before.len() {
                        assert(before[j] == cur@[j]);
                        assert(before.contains(before[j]));
                    }
                }
            }
        }
        i += 1;
    }
    proof {
        assert(s@.take(s@.len() as int) =~= s@);
    }
    let ghost done = piece_views(pieces@);
    pieces.push(cur);
    proof {
        assert(piece_views(pieces@) =~= done.push(cur@));
        assert forall|k: int| 0 <= k < pieces.len() implies !(#[trigger] piece_views(
            pieces@,
        )[k]).contains(sep) by {
            if k < done.len() {
                assert(piece_views(pieces@)[k] == done[k]);
            }
        }
    }
    pieces
}

/// The command-line tool of the storage subsystem.
#[derive(Debug, Clone, PartialEq, Eq)]
pub struct Zfs {
    zfs_cmd: String,
}

impl View for Zfs {
    type V = Seq<char>;

    closed spec fn view(&self) -> Seq<char> {
        self.zfs_cmd@
    }
}

impl Zfs {
    /// The tool under its usual name, `zfs`.
    pub fn new() -> (r: Self)
        ensures
            r@ == "zfs"@,
    {
        Zfs { zfs_cmd: "zfs".to_owned() }
    }

    /// The tool under the given name or path, and under its usual name where
    /// none is given.
    pub fn with_command(cmd: Option<String>) -> (r: Self)
        ensures
            match cmd {
                Some(c) => r@ == c@,
                None => r@ == "zfs"@,
            },
    {
        match cmd {
            Some(c) => Zfs { zfs_cmd: c },
            None => Zfs::new(),
        }
    }

    /// The name or path under which the tool is run.
    pub fn command(&self) -> (r: &str)
        ensures
            r@ == self@,
    {
        self.zfs_cmd.as_str()
    }

    /// The arguments with which the tool lists the names of all datasets,
    /// one to a line, in a form that is meant for programs.
    pub fn list_arguments(&self) -> (r: Vec<String>)
        ensures
            r@.len() == 4,
            r@[0]@ == "list"@,
            r@[1]@ == "-pH"@,
            r@[2]@ == "-o"@,
            r@[3]@ == "name"@,
    {
        let mut r: Vec<String> = Vec::new();
        r.push("list".to_owned());
        r.push("-pH".to_owned());
        r.push("-o".to_owned());
        r.push("name".to_owned());
        r
    }

    /// What the tool has listed: its output parted into lines, and each line
    /// into the fields that tabs part.
    pub fn parse_list(stdout: &[u8]) -> (r: Vec<Vec<Vec<u8>>>)
        ensures
            is_split(Seq::new(r@.len(), |i: int| join(piece_views(r@[i]@), 9u8)), stdout@, 10u8),
            forall|i: int| 0 <= i < r@.len() ==> is_split(
                piece_views(#[trigger] r@[i]@),
                join(piece_views(r@[i]@), 9u8),
                9u8,
            ),
    {
        let lines = split(stdout, 10u8);
        let mut r: Vec<Vec<Vec<u8>>> = Vec::new();
        let mut i: usize = 0;
        while i < lines.len()
            invariant
                i <= lines.len(),
                r.len() == i,
                forall|k: int|
                    0 <= k < i ==> is_split(
                        piece_views(#[trigger] r@[k]@),
                        piece_views(lines@)[k],
                        9u8,
                    ),
            decreases lines.len() - i,
        {
            let fields = split(lines[i].as_slice(), 9u8);
            assert(piece_views(lines@)[i as int] == lines@[i as int]@);
            r.push(fields);
            i += 1;
        }
        proof {
            assert(Seq::new(r@.len(), |i: int| join(piece_views(r@[i]@), 9u8)) =~= piece_views(
                lines@,
            ));
        }
        r
    }
}

impl Default for Zfs {
    fn default() -> (r: Self)
        ensures
            r@ == "zfs"@,
    {
        Zfs::new()
    }
}

} // verus!
