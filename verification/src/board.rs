//! The board of a build of songs and books: which are waiting, running,
//! built or failed, how the log items that the builds send move them, and
//! which to start next. Songs are named by (author, title), books by
//! ("BOOK", title). Drawing the board is left to the caller.
use vstd::prelude::*;
use crate::model::types::{Book, Song, World};
use crate::numbers::{decimal, decimal_spec};
use crate::text::str_eq;

verus! {

/// What a build reports.
#[derive(Clone, Debug, PartialEq, Eq)]
pub enum ELogType {
    Started,
    Lualatex(u32),
    Ps2pdf,
    Lilypond(String),
    Success,
    Failed,
    NoNeedSuccess,
    NoNeedFailed,
}

/// A report on a song.
#[derive(Clone, Debug, PartialEq, Eq)]
pub struct LogItemSong {
    pub author: String,
    pub title: String,
    pub status: ELogType,
}

/// A report on a book.
#[derive(Clone, Debug, PartialEq, Eq)]
pub struct LogItemBook {
    pub title: String,
    pub status: ELogType,
}

/// A report.
#[derive(Clone, Debug, PartialEq, Eq)]
pub enum LogItem {
    Song(LogItemSong),
    Book(LogItemBook),
}

/// The name of a song or a book on the board.
pub type KeyV = (Seq<char>, Seq<char>);

/// A set of names, without repeats.
pub struct KeySet {
    pub items: Vec<(String, String)>,
}

/// The value of a name.
pub open spec fn key_view(k: (String, String)) -> KeyV {
    (k.0@, k.1@)
}

impl KeySet {
    /// The names of the set.
    pub open spec fn view_set(&self) -> Set<KeyV> {
        self.items@.map_values(|k: (String, String)| key_view(k)).to_set()
    }

    /// No name is there twice.
    pub open spec fn wf(&self) -> bool {
        forall|i: int, j: int|
            0 <= i < j < self.items@.len() ==> key_view(#[trigger] self.items@[i]) != key_view(
                #[trigger] self.items@[j],
            )
    }

    /// The empty set.
    pub fn new() -> (r: KeySet)
        ensures
            r.wf(),
            r.view_set() == Set::<KeyV>::empty(),
            r.items@.len() == 0,
    {
        let r = KeySet { items: Vec::new() };
        assert(r.view_set() =~= Set::<KeyV>::empty());
        r
    }

    fn position(&self, a: &str, b: &str) -> (r: Option<usize>)
        ensures
            match r {
                Some(i) => i < self.items@.len() && key_view(self.items@[i as int]) == (a@, b@),
                None => forall|i: int| 0 <= i < self.items@.len() ==> key_view(#[trigger] self.items@[i]) != (a@, b@),
            },
    {
        let mut i: usize = 0;
        while i < self.items.len()
            invariant
                i <= self.items@.len(),
                forall|j: int| 0 <= j < i ==> key_view(#[trigger] self.items@[j]) != (a@, b@),
            decreases self.items@.len() - i,
        {
            if str_eq(self.items[i].0.as_str(), a) && str_eq(self.items[i].1.as_str(), b) {
                return Some(i);
            }
            i = i + 1;
        }
        None
    }

    /// Whether the name is in the set.
    pub fn contains(&self, a: &str, b: &str) -> (r: bool)
        ensures
            r == self.view_set().contains((a@, b@)),
    {
        match self.position(a, b) {
            Some(i) => {
                assert(self.items@.map_values(|k: (String, String)| key_view(k))[i as int] == (a@, b@));
                true
            },
            None => {
                proof {
                    let v = self.items@.map_values(|k: (String, String)| key_view(k));
                    if self.view_set().contains((a@, b@)) {
                        assert(v.contains((a@, b@)));
                        let j = choose|j: int| #![trigger v[j]] 0 <= j < v.len() && v[j] == (a@, b@);
                        assert(key_view(self.items@[j]) == (a@, b@));
                    }
                }
                false
            },
        }
    }

    /// Adds a name.
    pub fn insert(&mut self, a: String, b: String)
        requires
            old(self).wf(),
        ensures
            final(self).wf(),
            final(self).view_set() == old(self).view_set().insert((a@, b@)),
    {
        let ghost s0 = self.view_set();
        if self.contains(a.as_str(), b.as_str()) {
            assert(s0.insert((a@, b@)) =~= s0);
        } else {
            let ghost old_items = self.items@;
            self.items.push((a, b));
            proof {
                assert(self.items@.map_values(|k: (String, String)| key_view(k)) =~= old_items.map_values(
                    |k: (String, String)| key_view(k),
                ).push((a@, b@)));
                old_items.map_values(|k: (String, String)| key_view(k)).lemma_push_to_set_commute((a@, b@));
                assert(self.view_set() =~= s0.insert((a@, b@)));
                assert forall|i: int, j: int| 0 <= i < j < self.items@.len() implies key_view(
                    #[trigger] self.items@[i],
                ) != key_view(#[trigger] self.items@[j]) by {
                    if j == self.items@.len() - 1 {
                        assert(old_items.map_values(|k: (String, String)| key_view(k))[i] == key_view(
                            old_items[i],
                        ));
                    }
                }
            }
        }
    }

    /// Removes a name.
    pub fn remove(&mut self, a: &str, b: &str)
        requires
            old(self).wf(),
        ensures
            final(self).wf(),
            final(self).view_set() == old(self).view_set().remove((a@, b@)),
    {
        let ghost s0 = self.view_set();
        match self.position(a, b) {
            None => {
                proof {
                    let v = self.items@.map_values(|k: (String, String)| key_view(k));
                    if s0.contains((a@, b@)) {
                        assert(v.contains((a@, b@)));
                        let j = choose|j: int| #![trigger v[j]] 0 <= j < v.len() && v[j] == (a@, b@);
                        assert(key_view(self.items@[j]) == (a@, b@));
                    }
                    assert(s0.remove((a@, b@)) =~= s0);
                }
            },
            Some(i) => {
                let ghost old_items = self.items@;
                self.items.remove(i);
                proof {
                    let ov = old_items.map_values(|k: (String, String)| key_view(k));
                    let nv = self.items@.map_values(|k: (String, String)| key_view(k));
                    assert(nv =~= ov.remove(i as int));
                    assert forall|x: KeyV| #[trigger] self.view_set().contains(x) == s0.remove((a@, b@)).contains(x) by {
                        if self.view_set().contains(x) {
                            assert(nv.contains(x));
                            let j = choose|j: int| #![trigger nv[j]] 0 <= j < nv.len() && nv[j] == x;
                            if j < i {
                                assert(ov[j] == x);
                            } else {
                                assert(ov[j + 1] == x);
                                assert(key_view(old_items[j + 1]) != key_view(old_items[i as int]));
                            }
                        }
                        if s0.remove((a@, b@)).contains(x) {
                            assert(ov.contains(x));
                            let j = choose|j: int| #![trigger ov[j]] 0 <= j < ov.len() && ov[j] == x;
                            assert(j != i);
                            if j < i {
                                assert(nv[j] == x);
                            } else {
                                assert(nv[j - 1] == x);
                            }
                        }
                    }
                    assert(self.view_set() =~= s0.remove((a@, b@)));
                }
            },
        }
    }

    /// The number of names.
    pub fn len(&self) -> (r: usize)
        requires
            self.wf(),
        ensures
            r == self.view_set().len(),
    {
        proof {
            self.lemma_len();
        }
        self.items.len()
    }

    proof fn lemma_len(&self)
        requires
            self.wf(),
        ensures
            self.view_set().len() == self.items@.len(),
    {
        let v = self.items@.map_values(|k: (String, String)| key_view(k));
        assert forall|i: int, j: int| 0 <= i < j < v.len() implies v[i] != v[j] by {
            assert(key_view(self.items@[i]) != key_view(self.items@[j]));
        }
        assert(v.no_duplicates());
        v.unique_seq_to_set();
    }
}

// ------------------------------------------------------------ the board

/// The board: the names waiting, running, built and failed.
pub struct Board {
    pub pending: KeySet,
    pub started: KeySet,
    pub success: KeySet,
    pub failure: KeySet,
}

/// The name of a song on the board.
pub open spec fn song_key(s: Song) -> KeyV {
    (s.author@, s.title@)
}

/// The name of a book on the board.
pub open spec fn book_key(b: Book) -> KeyV {
    ("BOOK"@, b.title@)
}

/// The names of the songs and books of a world.
pub open spec fn world_keys(w: World) -> Set<KeyV> {
    w.songs@.map_values(|s: Song| song_key(s)).to_set() + w.books@.map_values(|b: Book| book_key(b)).to_set()
}

impl Board {
    /// The four sets have no repeats.
    pub open spec fn wf(&self) -> bool {
        self.pending.wf() && self.started.wf() && self.success.wf() && self.failure.wf()
    }

    /// A board where every song and book of the world waits.
    pub fn reset(world: &World) -> (r: Board)
        ensures
            r.wf(),
            r.pending.view_set() == world_keys(*world),
            r.started.view_set() == Set::<KeyV>::empty(),
            r.success.view_set() == Set::<KeyV>::empty(),
            r.failure.view_set() == Set::<KeyV>::empty(),
    {
        let mut pending = KeySet::new();
        let ghost sk = world.songs@.map_values(|s: Song| song_key(s));
        let ghost bk = world.books@.map_values(|b: Book| book_key(b));
        let mut i: usize = 0;
        while i < world.songs.len()
            invariant
                pending.wf(),
                sk == world.songs@.map_values(|s: Song| song_key(s)),
                i <= world.songs@.len(),
                pending.view_set() == sk.take(i as int).to_set(),
            decreases world.songs@.len() - i,
        {
            let s = &world.songs[i];
            pending.insert(s.author.clone(), s.title.clone());
            proof {
                assert(sk.take(i + 1) =~= sk.take(i as int).push(song_key(*s)));
                sk.take(i as int).lemma_push_to_set_commute(song_key(*s));
                assert(sk.take(i + 1).to_set() =~= sk.take(i as int).to_set().insert(song_key(*s)));
            }
            i = i + 1;
        }
        proof {
            assert(sk.take(i as int) =~= sk);
        }
        let mut j: usize = 0;
        while j < world.books.len()
            invariant
                pending.wf(),
                sk == world.songs@.map_values(|s: Song| song_key(s)),
                bk == world.books@.map_values(|b: Book| book_key(b)),
                j <= world.books@.len(),
                pending.view_set() == sk.to_set() + bk.take(j as int).to_set(),
            decreases world.books@.len() - j,
        {
            let b = &world.books[j];
            pending.insert(String::from_str("BOOK"), b.title.clone());
            proof {
                assert(bk.take(j + 1) =~= bk.take(j as int).push(book_key(*b)));
                bk.take(j as int).lemma_push_to_set_commute(book_key(*b));
                assert(sk.to_set() + bk.take(j + 1).to_set() =~= (sk.to_set() + bk.take(j as int).to_set()).insert(
                    book_key(*b),
                ));
            }
            j = j + 1;
        }
        proof {
            assert(bk.take(j as int) =~= bk);
        }
        Board { pending, started: KeySet::new(), success: KeySet::new(), failure: KeySet::new() }
    }
}

/// A build finished well (built, or up to date whatever its last result).
pub open spec fn finished_well(st: ELogType) -> bool {
    st is Success || st is NoNeedSuccess || st is NoNeedFailed
}

/// A job to start.
#[derive(Clone, Copy, Debug, PartialEq, Eq)]
pub enum Job {
    /// Build the song at this position of the world.
    Song(usize),
    /// Build the book at this position of the world.
    Book(usize),
}

/// The positions below `k` of the songs whose names wait.
pub open spec fn waiting_songs(songs: Seq<Song>, pending: Set<KeyV>, k: int) -> Seq<int>
    decreases k,
{
    if k <= 0 {
        Seq::empty()
    } else if pending.contains(song_key(songs[k - 1])) {
        waiting_songs(songs, pending, k - 1).push(k - 1)
    } else {
        waiting_songs(songs, pending, k - 1)
    }
}

/// The positions below `k` of the books whose names wait.
pub open spec fn waiting_books(books: Seq<Book>, pending: Set<KeyV>, k: int) -> Seq<int>
    decreases k,
{
    if k <= 0 {
        Seq::empty()
    } else if pending.contains(book_key(books[k - 1])) {
        waiting_books(books, pending, k - 1).push(k - 1)
    } else {
        waiting_books(books, pending, k - 1)
    }
}

/// At most the first `n` items.
pub open spec fn first_n<A>(s: Seq<A>, n: int) -> Seq<A> {
    if n >= s.len() {
        s
    } else if n <= 0 {
        Seq::empty()
    } else {
        s.take(n)
    }
}

/// The jobs to start: as many songs as there are free workers, the first
/// waiting ones; books only once no song is running or about to start.
pub open spec fn jobs_spec(world: World, pending: Set<KeyV>, nb_started: int, nb_workers: int) -> Seq<Job> {
    let n = nb_workers - nb_started;
    if n <= 0 {
        Seq::empty()
    } else {
        let songs = first_n(waiting_songs(world.songs@, pending, world.songs@.len() as int), n);
        let books = if songs.len() == 0 && nb_started == 0 {
            first_n(waiting_books(world.books@, pending, world.books@.len() as int), n)
        } else {
            Seq::empty()
        };
        songs.map_values(|i: int| Job::Song(i as usize)) + books.map_values(|i: int| Job::Book(i as usize))
    }
}

/// The name of the song or book of a job.
pub open spec fn job_key(world: World, j: Job) -> KeyV {
    match j {
        Job::Song(i) => song_key(world.songs@[i as int]),
        Job::Book(i) => book_key(world.books@[i as int]),
    }
}

/// The names of some jobs.
pub open spec fn job_keys(world: World, js: Seq<Job>) -> Set<KeyV> {
    js.map_values(|j: Job| job_key(world, j)).to_set()
}

proof fn lemma_waiting_songs_bound(songs: Seq<Song>, pending: Set<KeyV>, k: int)
    requires
        0 <= k <= songs.len(),
    ensures
        waiting_songs(songs, pending, k).len() <= k,
        forall|i: int|
            0 <= i < waiting_songs(songs, pending, k).len() ==> 0 <= #[trigger] waiting_songs(songs, pending, k)[i] < k,
    decreases k,
{
    if k > 0 {
        lemma_waiting_songs_bound(songs, pending, k - 1);
    }
}

proof fn lemma_waiting_books_bound(books: Seq<Book>, pending: Set<KeyV>, k: int)
    requires
        0 <= k <= books.len(),
    ensures
        waiting_books(books, pending, k).len() <= k,
        forall|i: int|
            0 <= i < waiting_books(books, pending, k).len() ==> 0 <= #[trigger] waiting_books(books, pending, k)[i] < k,
    decreases k,
{
    if k > 0 {
        lemma_waiting_books_bound(books, pending, k - 1);
    }
}

impl Board {
    /// Takes in a report: a song that finished well is built, one that
    /// failed has failed, and neither is running any more; a book that
    /// finished well is built, one that failed has failed (books stay
    /// counted as running). Other reports change nothing.
    pub fn handle_item(&mut self, item: &LogItem)
        requires
            old(self).wf(),
        ensures
            final(self).wf(),
            final(self).pending.view_set() == old(self).pending.view_set(),
            match item {
                LogItem::Song(s) => {
                    let k = (s.author@, s.title@);
                    if finished_well(s.status) {
                        &&& final(self).success.view_set() == old(self).success.view_set().insert(k)
                        &&& final(self).started.view_set() == old(self).started.view_set().remove(k)
                        &&& final(self).failure.view_set() == old(self).failure.view_set()
                    } else if s.status is Failed {
                        &&& final(self).failure.view_set() == old(self).failure.view_set().insert(k)
                        &&& final(self).started.view_set() == old(self).started.view_set().remove(k)
                        &&& final(self).success.view_set() == old(self).success.view_set()
                    } else {
                        &&& final(self).success.view_set() == old(self).success.view_set()
                        &&& final(self).started.view_set() == old(self).started.view_set()
                        &&& final(self).failure.view_set() == old(self).failure.view_set()
                    }
                },
                LogItem::Book(b) => {
                    let k = ("BOOK"@, b.title@);
                    &&& final(self).started.view_set() == old(self).started.view_set()
                    &&& if finished_well(b.status) {
                        &&& final(self).success.view_set() == old(self).success.view_set().insert(k)
                        &&& final(self).failure.view_set() == old(self).failure.view_set()
                    } else if b.status is Failed {
                        &&& final(self).failure.view_set() == old(self).failure.view_set().insert(k)
                        &&& final(self).success.view_set() == old(self).success.view_set()
                    } else {
                        &&& final(self).success.view_set() == old(self).success.view_set()
                        &&& final(self).failure.view_set() == old(self).failure.view_set()
                    }
                },
            },
    {
        match item {
            LogItem::Song(s) => match &s.status {
                ELogType::Success | ELogType::NoNeedSuccess | ELogType::NoNeedFailed => {
                    self.success.insert(s.author.clone(), s.title.clone());
                    self.started.remove(s.author.as_str(), s.title.as_str());
                },
                ELogType::Failed => {
                    self.failure.insert(s.author.clone(), s.title.clone());
                    self.started.remove(s.author.as_str(), s.title.as_str());
                },
                _ => {},
            },
            LogItem::Book(b) => match &b.status {
                ELogType::Success | ELogType::NoNeedSuccess | ELogType::NoNeedFailed => {
                    self.success.insert(String::from_str("BOOK"), b.title.clone());
                },
                ELogType::Failed => {
                    self.failure.insert(String::from_str("BOOK"), b.title.clone());
                },
                _ => {},
            },
        }
    }

    /// The jobs to start with `nb_workers` workers; their names leave the
    /// waiting names and join the running ones.
    pub fn rebuild(&mut self, world: &World, nb_workers: u32) -> (r: Vec<Job>)
        requires
            old(self).wf(),
            nb_workers <= i32::MAX,
            old(self).started.view_set().len() <= i32::MAX,
        ensures
            final(self).wf(),
            r@ == jobs_spec(
                *world,
                old(self).pending.view_set(),
                old(self).started.view_set().len() as int,
                nb_workers as int,
            ),
            final(self).pending.view_set() == old(self).pending.view_set().difference(job_keys(*world, r@)),
            final(self).started.view_set() == old(self).started.view_set().union(job_keys(*world, r@)),
            final(self).success.view_set() == old(self).success.view_set(),
            final(self).failure.view_set() == old(self).failure.view_set(),
    {
        let ghost p0 = self.pending.view_set();
        let ghost s0 = self.started.view_set();
        let nb_started = self.started.len();
        let mut jobs: Vec<Job> = Vec::new();
        if nb_workers as usize <= nb_started {
            proof {
                assert(job_keys(*world, jobs@) =~= Set::<KeyV>::empty());
                assert(p0.difference(Set::<KeyV>::empty()) =~= p0);
                assert(s0.union(Set::<KeyV>::empty()) =~= s0);
            }
            return jobs;
        }
        let n: usize = nb_workers as usize - nb_started;
        let ghost ws = waiting_songs(world.songs@, p0, world.songs@.len() as int);
        let mut i: usize = 0;
        while i < world.songs.len()
            invariant
                self.wf(),
                self.pending.view_set() == p0,
                i <= world.songs@.len(),
                ws == waiting_songs(world.songs@, p0, world.songs@.len() as int),
                jobs@ == first_n(waiting_songs(world.songs@, p0, i as int), n as int).map_values(
                    |x: int| Job::Song(x as usize),
                ),
            decreases world.songs@.len() - i,
        {
            let s = &world.songs[i];
            let w = self.pending.contains(s.author.as_str(), s.title.as_str());
            proof {
                lemma_waiting_songs_bound(world.songs@, p0, i as int);
            }
            if w && jobs.len() < n {
                let ghost before = jobs@;
                jobs.push(Job::Song(i));
                proof {
                    assert(jobs@ =~= first_n(waiting_songs(world.songs@, p0, i + 1), n as int).map_values(
                        |x: int| Job::Song(x as usize),
                    ));
                }
            } else {
                proof {
                    assert(jobs@ =~= first_n(waiting_songs(world.songs@, p0, i + 1), n as int).map_values(
                        |x: int| Job::Song(x as usize),
                    ));
                }
            }
            i = i + 1;
        }
        let nb_songs = jobs.len();
        if nb_songs == 0 && nb_started == 0 {
            let mut b: usize = 0;
            while b < world.books.len()
                invariant
                    self.wf(),
                    self.pending.view_set() == p0,
                    b <= world.books@.len(),
                    jobs@ == first_n(waiting_books(world.books@, p0, b as int), n as int).map_values(
                        |x: int| Job::Book(x as usize),
                    ),
                decreases world.books@.len() - b,
            {
                let bk = &world.books[b];
                let w = self.pending.contains("BOOK", bk.title.as_str());
                proof {
                    reveal_strlit("BOOK");
                    lemma_waiting_books_bound(world.books@, p0, b as int);
                }
                if w && jobs.len() < n {
                    jobs.push(Job::Book(b));
                    proof {
                        assert(jobs@ =~= first_n(waiting_books(world.books@, p0, b + 1), n as int).map_values(
                            |x: int| Job::Book(x as usize),
                        ));
                    }
                } else {
                    proof {
                        assert(jobs@ =~= first_n(waiting_books(world.books@, p0, b + 1), n as int).map_values(
                            |x: int| Job::Book(x as usize),
                        ));
                    }
                }
                b = b + 1;
            }
            proof {
                assert(jobs@ =~= jobs_spec(*world, p0, s0.len() as int, nb_workers as int));
            }
        } else {
            proof {
                assert(jobs@ =~= jobs_spec(*world, p0, s0.len() as int, nb_workers as int));
            }
        }
        proof {
            lemma_waiting_songs_bound(world.songs@, p0, world.songs@.len() as int);
            lemma_waiting_books_bound(world.books@, p0, world.books@.len() as int);
        }
        let mut m: usize = 0;
        while m < jobs.len()
            invariant
                self.wf(),
                m <= jobs@.len(),
                forall|x: int| 0 <= x < jobs@.len() ==> match #[trigger] jobs@[x] {
                    Job::Song(i) => i < world.songs@.len(),
                    Job::Book(i) => i < world.books@.len(),
                },
                self.pending.view_set() == p0.difference(job_keys(*world, jobs@.take(m as int))),
                self.started.view_set() == s0.union(job_keys(*world, jobs@.take(m as int))),
                self.success.view_set() == old(self).success.view_set(),
                self.failure.view_set() == old(self).failure.view_set(),
            decreases jobs@.len() - m,
        {
            let j = jobs[m];
            let (a, t) = match j {
                Job::Song(i) => (world.songs[i].author.clone(), world.songs[i].title.clone()),
                Job::Book(i) => (String::from_str("BOOK"), world.books[i].title.clone()),
            };
            proof {
                reveal_strlit("BOOK");
                assert(job_key(*world, j) == (a@, t@));
                jobs@.take(m as int).map_values(|j: Job| job_key(*world, j)).lemma_push_to_set_commute((a@, t@));
                assert(jobs@.take(m + 1).map_values(|j: Job| job_key(*world, j)) =~= jobs@.take(m as int).map_values(
                    |j: Job| job_key(*world, j),
                ).push((a@, t@)));
            }
            self.pending.remove(a.as_str(), t.as_str());
            self.started.insert(a, t);
            proof {
                assert(self.pending.view_set() =~= p0.difference(job_keys(*world, jobs@.take(m + 1))));
                assert(self.started.view_set() =~= s0.union(job_keys(*world, jobs@.take(m + 1))));
            }
            m = m + 1;
        }
        proof {
            assert(jobs@.take(m as int) =~= jobs@);
        }
        jobs
    }
}

/// How a song or a book is listed on the board.
#[derive(Clone, Copy, Debug, PartialEq, Eq)]
pub enum LineKind {
    Failure,
    Pending,
    Started,
    Waiting,
}

/// How a song is listed: not at all once built; then failed, waiting,
/// running, or otherwise waiting.
pub open spec fn song_line_spec(success: Set<KeyV>, failure: Set<KeyV>, pending: Set<KeyV>, started: Set<KeyV>, k: KeyV) -> Option<LineKind> {
    if success.contains(k) {
        None
    } else if failure.contains(k) {
        Some(LineKind::Failure)
    } else if pending.contains(k) {
        Some(LineKind::Pending)
    } else if started.contains(k) {
        Some(LineKind::Started)
    } else {
        Some(LineKind::Waiting)
    }
}

/// How a book is listed: not at all once built; then failed, or waiting.
pub open spec fn book_line_spec(success: Set<KeyV>, failure: Set<KeyV>, k: KeyV) -> Option<LineKind> {
    if success.contains(k) {
        None
    } else if failure.contains(k) {
        Some(LineKind::Failure)
    } else {
        Some(LineKind::Waiting)
    }
}

/// The counts shown above the board: built, failed, running songs,
/// waiting songs.
#[derive(Clone, Copy, Debug, PartialEq, Eq)]
pub struct Counts {
    pub ok: usize,
    pub errors: usize,
    pub started: usize,
    pub pending: usize,
}

impl Board {
    /// How a song is listed.
    pub open spec fn song_line_of(&self, s: Song) -> Option<LineKind> {
        song_line_spec(
            self.success.view_set(),
            self.failure.view_set(),
            self.pending.view_set(),
            self.started.view_set(),
            song_key(s),
        )
    }

    /// How a book is listed.
    pub open spec fn book_line_of(&self, b: Book) -> Option<LineKind> {
        book_line_spec(self.success.view_set(), self.failure.view_set(), book_key(b))
    }

    /// The number of songs listed as `kind` (`None`: not listed).
    pub open spec fn count_songs(&self, songs: Seq<Song>, kind: Option<LineKind>) -> nat
        decreases songs.len(),
    {
        if songs.len() == 0 {
            0
        } else {
            self.count_songs(songs.drop_last(), kind) + if self.song_line_of(songs.last()) == kind {
                1nat
            } else {
                0nat
            }
        }
    }

    /// The number of books listed as `kind` (`None`: not listed).
    pub open spec fn count_books(&self, books: Seq<Book>, kind: Option<LineKind>) -> nat
        decreases books.len(),
    {
        if books.len() == 0 {
            0
        } else {
            self.count_books(books.drop_last(), kind) + if self.book_line_of(books.last()) == kind {
                1nat
            } else {
                0nat
            }
        }
    }

    /// How a song is listed.
    pub fn song_line(&self, song: &Song) -> (r: Option<LineKind>)
        ensures
            r == self.song_line_of(*song),
    {
        let a = song.author.as_str();
        let t = song.title.as_str();
        if self.success.contains(a, t) {
            None
        } else if self.failure.contains(a, t) {
            Some(LineKind::Failure)
        } else if self.pending.contains(a, t) {
            Some(LineKind::Pending)
        } else if self.started.contains(a, t) {
            Some(LineKind::Started)
        } else {
            Some(LineKind::Waiting)
        }
    }

    /// How a book is listed.
    pub fn book_line(&self, book: &Book) -> (r: Option<LineKind>)
        ensures
            r == self.book_line_of(*book),
    {
        proof {
            reveal_strlit("BOOK");
        }
        if self.success.contains("BOOK", book.title.as_str()) {
            None
        } else if self.failure.contains("BOOK", book.title.as_str()) {
            Some(LineKind::Failure)
        } else {
            Some(LineKind::Waiting)
        }
    }

    /// The counts shown above the board of these songs and books: built
    /// songs and books, failed songs and books, running songs, waiting
    /// songs.
    pub fn counts(&self, songs: &Vec<Song>, books: &Vec<Book>) -> (r: Counts)
        requires
            songs@.len() + books@.len() <= usize::MAX,
        ensures
            r.ok == self.count_songs(songs@, None) + self.count_books(books@, None),
            r.errors == self.count_songs(songs@, Some(LineKind::Failure)) + self.count_books(
                books@,
                Some(LineKind::Failure),
            ),
            r.started == self.count_songs(songs@, Some(LineKind::Started)),
            r.pending == self.count_songs(songs@, Some(LineKind::Pending)),
    {
        let mut c = Counts { ok: 0, errors: 0, started: 0, pending: 0 };
        let mut i: usize = 0;
        while i < songs.len()
            invariant
                songs@.len() + books@.len() <= usize::MAX,
                i <= songs@.len(),
                c.ok == self.count_songs(songs@.take(i as int), None),
                c.errors == self.count_songs(songs@.take(i as int), Some(LineKind::Failure)),
                c.started == self.count_songs(songs@.take(i as int), Some(LineKind::Started)),
                c.pending == self.count_songs(songs@.take(i as int), Some(LineKind::Pending)),
                c.ok + c.errors + c.started + c.pending <= i,
            decreases songs@.len() - i,
        {
            proof {
                assert(songs@.take(i + 1).drop_last() =~= songs@.take(i as int));
            }
            match self.song_line(&songs[i]) {
                None => c.ok = c.ok + 1,
                Some(LineKind::Failure) => c.errors = c.errors + 1,
                Some(LineKind::Pending) => c.pending = c.pending + 1,
                Some(LineKind::Started) => c.started = c.started + 1,
                Some(LineKind::Waiting) => {},
            }
            i = i + 1;
        }
        proof {
            assert(songs@.take(i as int) =~= songs@);
        }
        let ghost ok_s = c.ok;
        let ghost err_s = c.errors;
        let mut j: usize = 0;
        while j < books.len()
            invariant
                songs@.len() + books@.len() <= usize::MAX,
                j <= books@.len(),
                ok_s + err_s <= songs@.len(),
                ok_s == self.count_songs(songs@, None),
                err_s == self.count_songs(songs@, Some(LineKind::Failure)),
                c.ok == ok_s + self.count_books(books@.take(j as int), None),
                c.errors == err_s + self.count_books(books@.take(j as int), Some(LineKind::Failure)),
                c.started == self.count_songs(songs@, Some(LineKind::Started)),
                c.pending == self.count_songs(songs@, Some(LineKind::Pending)),
                c.ok + c.errors <= ok_s + err_s + j,
            decreases books@.len() - j,
        {
            proof {
                assert(books@.take(j + 1).drop_last() =~= books@.take(j as int));
            }
            match self.book_line(&books[j]) {
                None => c.ok = c.ok + 1,
                Some(LineKind::Failure) => c.errors = c.errors + 1,
                _ => {},
            }
            j = j + 1;
        }
        proof {
            assert(books@.take(j as int) =~= books@);
        }
        c
    }
}

// ------------------------------------------------------------ the listing

/// The mark that starts a listed line: a sparkle for a failure, a truck
/// for a running song, a bear for one that waits.
pub open spec fn line_mark(k: LineKind) -> Seq<char> {
    match k {
        LineKind::Failure => "\u{2728} "@,
        LineKind::Started => "\u{1f69a}  "@,
        _ => "\u{1f43b}"@,
    }
}

/// A listed line: its mark, then "NAME @ TITLE".
pub open spec fn line_text(k: LineKind, name: Seq<char>, title: Seq<char>) -> Seq<char> {
    line_mark(k) + " "@ + name + " @ "@ + title
}

/// The summary line above the list.
pub open spec fn summary_text(ok: nat, errors: nat, started: nat, pending: nat) -> Seq<char> {
    decimal_spec(ok) + " Ok, "@ + decimal_spec(errors) + " Failures, "@ + decimal_spec(started) + " Started, "@
        + decimal_spec(pending) + " Pending "@
}

fn mark_of(k: LineKind) -> (r: &'static str)
    ensures
        r@ == line_mark(k),
{
    match k {
        LineKind::Failure => "\u{2728} ",
        LineKind::Started => "\u{1f69a}  ",
        _ => "\u{1f43b}",
    }
}

impl Board {
    /// The lines of the songs of `songs` that are listed, in order.
    pub open spec fn song_lines(&self, songs: Seq<Song>) -> Seq<Seq<char>>
        decreases songs.len(),
    {
        if songs.len() == 0 {
            Seq::empty()
        } else {
            self.song_lines(songs.drop_last()) + match self.song_line_of(songs.last()) {
                None => Seq::empty(),
                Some(k) => seq![line_text(k, songs.last().author@, songs.last().title@)],
            }
        }
    }

    /// The lines of the books of `books` that are listed, in order.
    pub open spec fn book_lines(&self, books: Seq<Book>) -> Seq<Seq<char>>
        decreases books.len(),
    {
        if books.len() == 0 {
            Seq::empty()
        } else {
            self.book_lines(books.drop_last()) + match self.book_line_of(books.last()) {
                None => Seq::empty(),
                Some(k) => seq![line_text(k, "BOOK"@, books.last().title@)],
            }
        }
    }

    /// What the board lists for these songs and books: the summary line
    /// (built, failed, running songs, waiting songs), then a line for each
    /// song not built, in order, then for each book not built.
    pub fn logs_done(&self, songs: &Vec<Song>, books: &Vec<Book>) -> (r: Vec<String>)
        requires
            songs@.len() + books@.len() <= usize::MAX,
        ensures
            r@.map_values(|x: String| x@) == seq![
                summary_text(
                    self.count_songs(songs@, None) + self.count_books(books@, None),
                    self.count_songs(songs@, Some(LineKind::Failure)) + self.count_books(books@, Some(LineKind::Failure)),
                    self.count_songs(songs@, Some(LineKind::Started)),
                    self.count_songs(songs@, Some(LineKind::Pending)),
                ),
            ] + self.song_lines(songs@) + self.book_lines(books@),
    {
        let c = self.counts(songs, books);
        let summary = decimal(c.ok as u64).concat(" Ok, ").concat(decimal(c.errors as u64).as_str()).concat(
            " Failures, ",
        ).concat(decimal(c.started as u64).as_str()).concat(" Started, ").concat(
            decimal(c.pending as u64).as_str(),
        ).concat(" Pending ");
        let mut out: Vec<String> = Vec::new();
        out.push(summary);
        let ghost head = out@.map_values(|x: String| x@);
        let mut i: usize = 0;
        while i < songs.len()
            invariant
                i <= songs@.len(),
                out@.map_values(|x: String| x@) == head + self.song_lines(songs@.take(i as int)),
            decreases songs@.len() - i,
        {
            proof {
                assert(songs@.take(i + 1).drop_last() =~= songs@.take(i as int));
            }
            let ghost before = out@;
            match self.song_line(&songs[i]) {
                None => {},
                Some(k) => {
                    let line = mark_of(k).to_owned().concat(" ").concat(songs[i].author.as_str()).concat(" @ ").concat(
                        songs[i].title.as_str(),
                    );
                    out.push(line);
                    assert(out@.map_values(|x: String| x@) =~= before.map_values(|x: String| x@).push(line@));
                },
            }
            i = i + 1;
        }
        proof {
            assert(songs@.take(i as int) =~= songs@);
        }
        let ghost mid = out@.map_values(|x: String| x@);
        let mut j: usize = 0;
        while j < books.len()
            invariant
                j <= books@.len(),
                out@.map_values(|x: String| x@) == mid + self.book_lines(books@.take(j as int)),
            decreases books@.len() - j,
        {
            proof {
                assert(books@.take(j + 1).drop_last() =~= books@.take(j as int));
            }
            let ghost before = out@;
            match self.book_line(&books[j]) {
                None => {},
                Some(k) => {
                    let line = mark_of(k).to_owned().concat(" ").concat("BOOK").concat(" @ ").concat(
                        books[j].title.as_str(),
                    );
                    out.push(line);
                    assert(out@.map_values(|x: String| x@) =~= before.map_values(|x: String| x@).push(line@));
                },
            }
            j = j + 1;
        }
        proof {
            assert(books@.take(j as int) =~= books@);
        }
        out
    }
}

// ------------------------------------------------------------ laws

/// A rebuild starts no more jobs than there are free workers, so it never
/// brings the running names above the number of workers (if they were not
/// already above it).
pub proof fn lemma_rebuild_within_workers(world: World, pending: Set<KeyV>, started: Set<KeyV>, nb_workers: int)
    requires
        started.finite(),
        0 <= nb_workers,
    ensures
        jobs_spec(world, pending, started.len() as int, nb_workers).len() <= (if nb_workers > started.len() {
            nb_workers - started.len()
        } else {
            0
        }),
        started.union(job_keys(world, jobs_spec(world, pending, started.len() as int, nb_workers))).len() <= (
        if started.len() >= nb_workers {
            started.len() as int
        } else {
            nb_workers
        }),
{
    let js = jobs_spec(world, pending, started.len() as int, nb_workers);
    let ks = js.map_values(|j: Job| job_key(world, j));
    ks.lemma_cardinality_of_set();
    vstd::seq_lib::seq_to_set_is_finite(ks);
    vstd::set_lib::lemma_len_union(started, ks.to_set());
}

} // verus!
