use vstd::prelude::*;

use crate::chunk::{
    rect_area, rect_max_extent, rect_splittable, rect_within, rects_overlap, Chunk, ChunkSplit,
};
use crate::dimensionoptions::DimensionOptions;
use crate::dungeon::Dungeon;
use crate::hallwayoptions::HallwayOptions;
use crate::merge::{merge_points, MergeError};
use crate::point::{point_in_bounds, Point, AREA_LIMIT, COORD_LIMIT};
use crate::random::{RandomSource, StdRandom};
use crate::room::Room;

verus! {

/// A chunk as the builder keeps it: well formed, at least one unit wide and
/// high, and inside the root rectangle.
pub open spec fn chunk_ok(c: Chunk, root_ll: Point, root_ur: Point) -> bool {
    &&& c.wf()
    &&& c.spec_width() >= 1
    &&& c.spec_height() >= 1
    &&& rect_within(c.lower_left, c.upper_right, root_ll, root_ur)
}

/// A room as `build` emits it: well formed, of positive extent, inside the
/// root rectangle, and terminal: it either fails the split predicate or
/// stopped early under the configured maximum area.
pub open spec fn room_ok(r: Room, root_ll: Point, root_ur: Point, d: DimensionOptions) -> bool {
    &&& point_in_bounds(r.spec_lower_left())
    &&& point_in_bounds(r.spec_upper_right())
    &&& r.spec_lower_left().x < r.spec_upper_right().x
    &&& r.spec_lower_left().y < r.spec_upper_right().y
    &&& rect_within(r.spec_lower_left(), r.spec_upper_right(), root_ll, root_ur)
    &&& (!rect_splittable(r.spec_lower_left(), r.spec_upper_right(), d) || (d.max_area is Some
        && rect_area(r.spec_lower_left(), r.spec_upper_right()) < d.max_area->0))
}

/// No two rooms of the sequence share interior points.
pub open spec fn rooms_disjoint(rooms: Seq<Room>) -> bool {
    forall|i: int, j: int|
        0 <= i < j < rooms.len() ==> !rects_overlap(
            (#[trigger] rooms[i]).spec_lower_left(),
            rooms[i].spec_upper_right(),
            (#[trigger] rooms[j]).spec_lower_left(),
            rooms[j].spec_upper_right(),
        )
}

/// The termination weight of one pending chunk.
pub open spec fn chunk_weight(c: Chunk) -> int {
    2 * c.spec_area() - 1
}

/// The termination measure of the pending queue: splitting one chunk into
/// two halves of the same total area lowers it by one, and retiring a chunk
/// lowers it by the chunk's weight.
pub open spec fn queue_measure(s: Seq<Chunk>) -> int
    decreases s.len(),
{
    if s.len() == 0 {
        0
    } else {
        chunk_weight(s[0]) + queue_measure(s.drop_first())
    }
}

proof fn lemma_queue_measure_nonneg(s: Seq<Chunk>)
    requires
        forall|i: int| 0 <= i < s.len() ==> (#[trigger] s[i]).spec_area() >= 1,
    ensures
        queue_measure(s) >= 0,
    decreases s.len(),
{
    if s.len() > 0 {
        assert(s[0].spec_area() >= 1);
        lemma_queue_measure_nonneg(s.drop_first());
    }
}

proof fn lemma_queue_measure_push(s: Seq<Chunk>, c: Chunk)
    ensures
        queue_measure(s.push(c)) == queue_measure(s) + chunk_weight(c),
    decreases s.len(),
{
    if s.len() == 0 {
        assert(s.push(c)[0] == c);
        assert(s.push(c).drop_first() =~= Seq::<Chunk>::empty());
        assert(queue_measure(Seq::<Chunk>::empty()) == 0);
        assert(queue_measure(s.push(c)) == chunk_weight(c) + queue_measure(
            s.push(c).drop_first(),
        ));
    } else {
        assert(s.push(c)[0] == s[0]);
        assert(s.push(c).drop_first() =~= s.drop_first().push(c));
        lemma_queue_measure_push(s.drop_first(), c);
        assert(queue_measure(s.push(c)) == chunk_weight(s[0]) + queue_measure(
            s.push(c).drop_first(),
        ));
        assert(queue_measure(s) == chunk_weight(s[0]) + queue_measure(s.drop_first()));
    }
}

proof fn lemma_queue_measure_remove(s: Seq<Chunk>, i: int)
    requires
        0 <= i < s.len(),
    ensures
        queue_measure(s.remove(i)) == queue_measure(s) - chunk_weight(s[i]),
    decreases s.len(),
{
    if i == 0 {
        assert(s.remove(0) =~= s.drop_first());
    } else {
        assert(s.remove(i).drop_first() =~= s.drop_first().remove(i - 1));
        assert(s.remove(i)[0] == s[0]);
        lemma_queue_measure_remove(s.drop_first(), i - 1);
    }
}

/// The total area of the pending chunks.
pub open spec fn queue_area_sum(s: Seq<Chunk>) -> int
    decreases s.len(),
{
    if s.len() == 0 {
        0
    } else {
        s[0].spec_area() + queue_area_sum(s.drop_first())
    }
}

/// The total area of the emitted rooms.
pub open spec fn rooms_area_sum(s: Seq<Room>) -> int
    decreases s.len(),
{
    if s.len() == 0 {
        0
    } else {
        rooms_area_sum(s.drop_last()) + rect_area(
            s.last().spec_lower_left(),
            s.last().spec_upper_right(),
        )
    }
}

proof fn lemma_queue_area_push(s: Seq<Chunk>, c: Chunk)
    ensures
        queue_area_sum(s.push(c)) == queue_area_sum(s) + c.spec_area(),
    decreases s.len(),
{
    if s.len() == 0 {
        assert(s.push(c)[0] == c);
        assert(s.push(c).drop_first() =~= Seq::<Chunk>::empty());
        assert(queue_area_sum(Seq::<Chunk>::empty()) == 0);
        assert(queue_area_sum(s.push(c)) == c.spec_area() + queue_area_sum(
            s.push(c).drop_first(),
        ));
    } else {
        assert(s.push(c)[0] == s[0]);
        assert(s.push(c).drop_first() =~= s.drop_first().push(c));
        lemma_queue_area_push(s.drop_first(), c);
        assert(queue_area_sum(s.push(c)) == s[0].spec_area() + queue_area_sum(
            s.push(c).drop_first(),
        ));
        assert(queue_area_sum(s) == s[0].spec_area() + queue_area_sum(s.drop_first()));
    }
}

proof fn lemma_queue_area_remove(s: Seq<Chunk>, i: int)
    requires
        0 <= i < s.len(),
    ensures
        queue_area_sum(s.remove(i)) == queue_area_sum(s) - s[i].spec_area(),
    decreases s.len(),
{
    if i == 0 {
        assert(s.remove(0) =~= s.drop_first());
    } else {
        assert(s.remove(i).drop_first() =~= s.drop_first().remove(i - 1));
        assert(s.remove(i)[0] == s[0]);
        lemma_queue_area_remove(s.drop_first(), i - 1);
    }
}

/// Removes and returns a chunk of the largest area still pending.
fn pop_largest(chunks: &mut Vec<Chunk>) -> (c: Chunk)
    requires
        old(chunks)@.len() >= 1,
        forall|i: int| 0 <= i < old(chunks)@.len() ==> (#[trigger] old(chunks)@[i]).wf(),
    ensures
        exists|i: int|
            0 <= i < old(chunks)@.len() && old(chunks)@[i] == c && final(chunks)@ == old(
                chunks,
            )@.remove(i),
        forall|j: int|
            0 <= j < final(chunks)@.len() ==> (#[trigger] final(chunks)@[j]).spec_area()
                <= c.spec_area(),
        forall|j: int|
            0 <= j < final(chunks)@.len() ==> old(chunks)@.contains(#[trigger] final(chunks)@[j]),
{
    let mut best: usize = 0;
    let mut best_area = chunks[0].area();
    let mut i: usize = 1;
    while i < chunks.len()
        invariant
            chunks@ == old(chunks)@,
            chunks@.len() >= 1,
            best < i <= chunks@.len(),
            forall|k: int| 0 <= k < chunks@.len() ==> (#[trigger] chunks@[k]).wf(),
            best_area == chunks@[best as int].spec_area(),
            forall|k: int| 0 <= k < i ==> (#[trigger] chunks@[k]).spec_area() <= best_area,
        decreases chunks@.len() - i,
    {
        let a = chunks[i].area();
        if a > best_area {
            best = i;
            best_area = a;
        }
        i = i + 1;
    }
    let c = chunks.remove(best);
    proof {
        old(chunks)@.remove_ensures(best as int);
        assert(chunks@ == old(chunks)@.remove(best as int));
        assert forall|j: int| 0 <= j < chunks@.len() implies old(chunks)@.contains(
            #[trigger] chunks@[j],
        ) by {
            if j < best {
                assert(chunks@[j] == old(chunks)@[j]);
            } else {
                assert(chunks@[j] == old(chunks)@[j + 1]);
            }
        }
        assert forall|j: int| 0 <= j < chunks@.len() implies (#[trigger] chunks@[j]).spec_area()
            <= c.spec_area() by {
            if j < best {
                assert(chunks@[j] == old(chunks)@[j]);
            } else {
                assert(chunks@[j] == old(chunks)@[j + 1]);
            }
        }
    }
    c
}

/// Process state for one generation run: the pending chunks in a max-area
/// priority queue, the configuration, the root area, and the random source.
pub struct DungeonBuilder {
    chunks: Vec<Chunk>,
    rng: StdRandom,
    dimension_options: Option<DimensionOptions>,
    hallway_options: Option<HallwayOptions>,
    total_area: i64,
    root: Ghost<(Point, Point)>,
}

impl DungeonBuilder {
    pub closed spec fn spec_chunks(self) -> Seq<Chunk> {
        self.chunks@
    }

    pub closed spec fn spec_dimension_options(self) -> Option<DimensionOptions> {
        self.dimension_options
    }

    pub closed spec fn spec_hallway_options(self) -> Option<HallwayOptions> {
        self.hallway_options
    }

    pub closed spec fn spec_total_area(self) -> int {
        self.total_area as int
    }

    /// The corners of the area the builder was seeded with.
    pub closed spec fn spec_root(self) -> (Point, Point) {
        self.root@
    }

    /// The builder's invariant: validated options, a root rectangle in
    /// range whose area is the recorded total, and pending chunks that lie
    /// inside the root, have positive extent, and are pairwise disjoint.
    pub closed spec fn wf(self) -> bool {
        &&& match self.dimension_options {
            Some(d) => d.wf(),
            None => true,
        }
        &&& match self.hallway_options {
            Some(h) => h.wf(),
            None => true,
        }
        &&& point_in_bounds(self.root@.0)
        &&& point_in_bounds(self.root@.1)
        &&& self.root@.0.x <= self.root@.1.x
        &&& self.root@.0.y <= self.root@.1.y
        &&& self.total_area == rect_area(self.root@.0, self.root@.1)
        &&& forall|i: int|
            0 <= i < self.chunks@.len() ==> chunk_ok(
                #[trigger] self.chunks@[i],
                self.root@.0,
                self.root@.1,
            )
        &&& forall|i: int, j: int|
            0 <= i < j < self.chunks@.len() ==> !rects_overlap(
                (#[trigger] self.chunks@[i]).lower_left,
                self.chunks@[i].upper_right,
                (#[trigger] self.chunks@[j]).lower_left,
                self.chunks@[j].upper_right,
            )
    }

    /// A builder drawing from an entropy-seeded random source.
    pub fn new() -> (b: DungeonBuilder)
        ensures
            b.wf(),
            b.spec_chunks().len() == 0,
            queue_area_sum(b.spec_chunks()) == b.spec_total_area(),
            b.spec_dimension_options() is None,
            b.spec_hallway_options() is None,
    {
        DungeonBuilder {
            chunks: Vec::new(),
            rng: StdRandom::from_entropy(),
            dimension_options: None,
            hallway_options: None,
            total_area: 0,
            root: Ghost((Point { x: 0, y: 0 }, Point { x: 0, y: 0 })),
        }
    }

    /// A builder whose draw sequence is a function of the seed alone, for
    /// reproducible generation.
    pub fn new_seeded(seed: u64) -> (b: DungeonBuilder)
        ensures
            b.wf(),
            b.spec_chunks().len() == 0,
            queue_area_sum(b.spec_chunks()) == b.spec_total_area(),
            b.spec_dimension_options() is None,
            b.spec_hallway_options() is None,
    {
        DungeonBuilder {
            chunks: Vec::new(),
            rng: StdRandom::from_seed(seed),
            dimension_options: None,
            hallway_options: None,
            total_area: 0,
            root: Ghost((Point { x: 0, y: 0 }, Point { x: 0, y: 0 })),
        }
    }

    /// Seeds the queue with one root chunk covering the requested area and
    /// records the area as the budget's normalization denominator. The
    /// root's orientation tag comes from an unweighted coin flip.
    pub fn in_area(&mut self, lower_left: Point, upper_right: Point)
        requires
            old(self).wf(),
            old(self).spec_chunks().len() == 0,
            point_in_bounds(lower_left),
            point_in_bounds(upper_right),
            lower_left.x < upper_right.x,
            lower_left.y < upper_right.y,
        ensures
            final(self).wf(),
            final(self).spec_chunks().len() == 1,
            final(self).spec_chunks()[0].lower_left == lower_left,
            final(self).spec_chunks()[0].upper_right == upper_right,
            queue_area_sum(final(self).spec_chunks()) == final(self).spec_total_area(),
            final(self).spec_root() == (lower_left, upper_right),
            final(self).spec_total_area() == rect_area(lower_left, upper_right),
            final(self).spec_dimension_options() == old(self).spec_dimension_options(),
            final(self).spec_hallway_options() == old(self).spec_hallway_options(),
    {
        let mut chunk_split = ChunkSplit::Horizontal;
        if self.rng.one_in(2) {
            chunk_split = ChunkSplit::Vertical;
        }
        let chunk = Chunk::new(lower_left, upper_right, chunk_split);
        self.total_area = chunk.area();
        proof {
            self.root@ = (lower_left, upper_right);
        }
        let ghost q = self.chunks@;
        self.chunks.push(chunk);
        proof {
            lemma_queue_area_push(q, chunk);
        }
    }

    pub fn with_dimension_options(&mut self, dimension_options: DimensionOptions)
        requires
            old(self).wf(),
            dimension_options.wf(),
        ensures
            final(self).wf(),
            final(self).spec_dimension_options() == Some(dimension_options),
            final(self).spec_hallway_options() == old(self).spec_hallway_options(),
            final(self).spec_chunks() == old(self).spec_chunks(),
            final(self).spec_root() == old(self).spec_root(),
            final(self).spec_total_area() == old(self).spec_total_area(),
    {
        self.dimension_options = Some(dimension_options);
    }

    pub fn with_hallway_options(&mut self, hallway_options: HallwayOptions)
        requires
            old(self).wf(),
            hallway_options.wf(),
        ensures
            final(self).wf(),
            final(self).spec_hallway_options() == Some(hallway_options),
            final(self).spec_dimension_options() == old(self).spec_dimension_options(),
            final(self).spec_chunks() == old(self).spec_chunks(),
            final(self).spec_root() == old(self).spec_root(),
            final(self).spec_total_area() == old(self).spec_total_area(),
    {
        self.hallway_options = Some(hallway_options);
    }

    /// Runs the generation to completion: repeatedly pops the largest
    /// pending chunk and either retires it as a room or splits it, possibly
    /// carving a corridor strip between the halves while the hallway budget
    /// still has room; when the queue empties, the accumulated strip
    /// corners are merged once into hallway polylines.
    pub fn build(&mut self) -> (result: Result<Dungeon, MergeError>)
        requires
            old(self).wf(),
            old(self).spec_dimension_options() is Some,
        ensures
            old(self).spec_hallway_options() is None ==> result is Ok,
            result is Err ==> old(self).spec_hallway_options() is Some,
            match result {
                Ok(d) => {
                    &&& old(self).spec_hallway_options() is None ==> d.spec_hallways().len() == 0
                    &&& old(self).spec_chunks().len() >= 1 ==> d.spec_rooms().len() >= 1
                    &&& forall|i: int|
                        0 <= i < d.spec_rooms().len() ==> room_ok(
                            #[trigger] d.spec_rooms()[i],
                            old(self).spec_root().0,
                            old(self).spec_root().1,
                            old(self).spec_dimension_options()->0,
                        )
                    &&& rooms_disjoint(d.spec_rooms())
                    &&& forall|i: int, j: int|
                        0 <= i < d.spec_hallways().len() && 0 <= j
                            < d.spec_hallways()[i].spec_points().len() ==> rect_within(
                            #[trigger] d.spec_hallways()[i].spec_points()[j],
                            d.spec_hallways()[i].spec_points()[j],
                            old(self).spec_root().0,
                            old(self).spec_root().1,
                        )
                    &&& queue_area_sum(old(self).spec_chunks()) == old(self).spec_total_area()
                        ==> {
                        &&& rooms_area_sum(d.spec_rooms()) <= old(self).spec_total_area()
                        &&& old(self).spec_hallway_options() is None ==> rooms_area_sum(
                            d.spec_rooms(),
                        ) == old(self).spec_total_area()
                        &&& match old(self).spec_hallway_options() {
                            Some(h) => (old(self).spec_total_area() - rooms_area_sum(
                                d.spec_rooms(),
                            )) * 100 <= h.hallway_percent * old(self).spec_total_area() + 100 * ((
                            h.max_hallway_width - 1) * rect_max_extent(
                                old(self).spec_root().0,
                                old(self).spec_root().1,
                            )),
                            None => true,
                        }
                    }
                },
                Err(_) => true,
            },
    {
        let dimension_options = match &self.dimension_options {
            Some(d) => *d,
            None => vstd::pervasive::unreached(),
        };
        let hallway_options = self.hallway_options;
        let total_area = self.total_area;
        let ghost root_ll = self.root@.0;
        let ghost root_ur = self.root@.1;
        proof {
            assert(total_area <= AREA_LIMIT) by (nonlinear_arith)
                requires
                    total_area == (root_ur.x - root_ll.x) * (root_ur.y - root_ll.y),
                    0 <= root_ur.x - root_ll.x <= 2 * COORD_LIMIT,
                    0 <= root_ur.y - root_ll.y <= 2 * COORD_LIMIT,
                    AREA_LIMIT == 4 * COORD_LIMIT * COORD_LIMIT,
            ;
        }
        let mut dungeon = Dungeon::new();
        let mut hallway_points: Vec<Point> = Vec::new();
        let mut carved: i64 = 0;
        proof {
            assert(rooms_area_sum(dungeon.spec_rooms()) == 0);
        }
        while self.chunks.len() > 0
            invariant
                self.dimension_options == Some(dimension_options),
                dimension_options.wf(),
                self.hallway_options == hallway_options,
                self.hallway_options == old(self).spec_hallway_options(),
                match hallway_options {
                    Some(h) => h.wf(),
                    None => true,
                },
                self.root@ == (root_ll, root_ur),
                (root_ll, root_ur) == old(self).spec_root(),
                point_in_bounds(root_ll),
                point_in_bounds(root_ur),
                root_ll.x <= root_ur.x,
                root_ll.y <= root_ur.y,
                total_area == rect_area(root_ll, root_ur),
                0 <= total_area <= AREA_LIMIT,
                forall|i: int|
                    0 <= i < self.chunks@.len() ==> chunk_ok(
                        #[trigger] self.chunks@[i],
                        root_ll,
                        root_ur,
                    ),
                forall|i: int, j: int|
                    0 <= i < j < self.chunks@.len() ==> !rects_overlap(
                        (#[trigger] self.chunks@[i]).lower_left,
                        self.chunks@[i].upper_right,
                        (#[trigger] self.chunks@[j]).lower_left,
                        self.chunks@[j].upper_right,
                    ),
                forall|i: int|
                    0 <= i < dungeon.spec_rooms().len() ==> room_ok(
                        #[trigger] dungeon.spec_rooms()[i],
                        root_ll,
                        root_ur,
                        dimension_options,
                    ),
                rooms_disjoint(dungeon.spec_rooms()),
                forall|i: int, j: int|
                    0 <= i < self.chunks@.len() && 0 <= j < dungeon.spec_rooms().len()
                        ==> !rects_overlap(
                        (#[trigger] self.chunks@[i]).lower_left,
                        self.chunks@[i].upper_right,
                        (#[trigger] dungeon.spec_rooms()[j]).spec_lower_left(),
                        dungeon.spec_rooms()[j].spec_upper_right(),
                    ),
                dungeon.spec_hallways().len() == 0,
                old(self).spec_chunks().len() >= 1 ==> self.chunks@.len()
                    + dungeon.spec_rooms().len() >= 1,
                hallway_options is None ==> hallway_points@.len() == 0,
                forall|k: int|
                    0 <= k < hallway_points@.len() ==> rect_within(
                        #[trigger] hallway_points@[k],
                        hallway_points@[k],
                        root_ll,
                        root_ur,
                    ),
                0 <= carved,
                match hallway_options {
                    Some(h) => carved * 100 <= h.hallway_percent * total_area + 100 * ((
                    h.max_hallway_width - 1) * rect_max_extent(root_ll, root_ur)),
                    None => carved == 0,
                },
                queue_area_sum(old(self).spec_chunks()) == old(self).spec_total_area()
                    ==> queue_area_sum(self.chunks@) + rooms_area_sum(dungeon.spec_rooms())
                    + carved == total_area,
            decreases queue_measure(self.chunks@),
        {
            let ghost q0 = self.chunks@;
            let mut chunk = pop_largest(&mut self.chunks);
            let ghost c0 = chunk;
            let ghost pi = choose|i: int|
                0 <= i < q0.len() && q0[i] == c0 && self.chunks@ == q0.remove(i);
            proof {
                q0.remove_ensures(pi);
                lemma_queue_measure_remove(q0, pi);
                lemma_queue_area_remove(q0, pi);
                assert(chunk_ok(c0, root_ll, root_ur));
                assert forall|j: int| 0 <= j < self.chunks@.len() implies chunk_ok(
                    #[trigger] self.chunks@[j],
                    root_ll,
                    root_ur,
                ) && !rects_overlap(
                    self.chunks@[j].lower_left,
                    self.chunks@[j].upper_right,
                    c0.lower_left,
                    c0.upper_right,
                ) by {
                    let j0 = if j < pi {
                        j
                    } else {
                        j + 1
                    };
                    assert(self.chunks@[j] == q0[j0]);
                    assert(chunk_ok(q0[j0], root_ll, root_ur));
                }
                assert forall|a: int, b: int| 0 <= a < b < self.chunks@.len() implies !rects_overlap(
                    (#[trigger] self.chunks@[a]).lower_left,
                    self.chunks@[a].upper_right,
                    (#[trigger] self.chunks@[b]).lower_left,
                    self.chunks@[b].upper_right,
                ) by {
                    let a0 = if a < pi {
                        a
                    } else {
                        a + 1
                    };
                    let b0 = if b < pi {
                        b
                    } else {
                        b + 1
                    };
                    assert(self.chunks@[a] == q0[a0]);
                    assert(self.chunks@[b] == q0[b0]);
                }
                assert forall|i: int, j: int|
                    0 <= i < self.chunks@.len() && 0 <= j < dungeon.spec_rooms().len()
                        implies !rects_overlap(
                        (#[trigger] self.chunks@[i]).lower_left,
                        self.chunks@[i].upper_right,
                        (#[trigger] dungeon.spec_rooms()[j]).spec_lower_left(),
                        dungeon.spec_rooms()[j].spec_upper_right(),
                    ) by {
                        let i0 = if i < pi {
                            i
                        } else {
                            i + 1
                        };
                        assert(self.chunks@[i] == q0[i0]);
                    }
                assert(c0.spec_area() >= 1) by (nonlinear_arith)
                    requires
                        c0.spec_area() == c0.spec_width() * c0.spec_height(),
                        c0.spec_width() >= 1,
                        c0.spec_height() >= 1,
                ;
            }
            let new_chunk_option = chunk.split(&dimension_options, &mut self.rng);
            let ghost c1 = chunk;
            match new_chunk_option {
                Some(new_chunk) => {
                    proof {
                        match new_chunk.chunk_split {
                            ChunkSplit::Vertical => {
                                assert(c1.spec_area() + new_chunk.spec_area() == c0.spec_area())
                                    by (nonlinear_arith)
                                    requires
                                        c1.spec_area() == c1.spec_width() * c1.spec_height(),
                                        new_chunk.spec_area() == new_chunk.spec_width()
                                            * new_chunk.spec_height(),
                                        c0.spec_area() == c0.spec_width() * c0.spec_height(),
                                        c1.spec_height() == c0.spec_height(),
                                        new_chunk.spec_height() == c0.spec_height(),
                                        c1.spec_width() + new_chunk.spec_width()
                                            == c0.spec_width(),
                                ;
                            },
                            ChunkSplit::Horizontal => {
                                assert(c1.spec_area() + new_chunk.spec_area() == c0.spec_area())
                                    by (nonlinear_arith)
                                    requires
                                        c1.spec_area() == c1.spec_width() * c1.spec_height(),
                                        new_chunk.spec_area() == new_chunk.spec_width()
                                            * new_chunk.spec_height(),
                                        c0.spec_area() == c0.spec_width() * c0.spec_height(),
                                        c1.spec_width() == c0.spec_width(),
                                        new_chunk.spec_width() == c0.spec_width(),
                                        c1.spec_height() + new_chunk.spec_height()
                                            == c0.spec_height(),
                                ;
                            },
                        }
                        assert(chunk_ok(c1, root_ll, root_ur));
                        assert(chunk_ok(new_chunk, root_ll, root_ur));
                    }
                    let ghost carved0 = carved;
                    match hallway_options {
                        Some(h) => {
                            let can_strip_hallway = match new_chunk.chunk_split() {
                                ChunkSplit::Vertical => {
                                    chunk.height() > h.min_hallway_length && chunk.width()
                                        > h.min_hallway_width
                                },
                                ChunkSplit::Horizontal => {
                                    chunk.width() > h.min_hallway_length && chunk.height()
                                        > h.min_hallway_width
                                },
                            };
                            proof {
                                assert(h.hallway_percent * total_area <= COORD_LIMIT * AREA_LIMIT)
                                    by (nonlinear_arith)
                                    requires
                                        0 <= h.hallway_percent <= COORD_LIMIT,
                                        0 <= total_area <= AREA_LIMIT,
                                ;
                                assert((h.max_hallway_width - 1) * rect_max_extent(
                                    root_ll,
                                    root_ur,
                                ) <= COORD_LIMIT * (2 * COORD_LIMIT)) by (nonlinear_arith)
                                    requires
                                        0 <= h.max_hallway_width - 1 <= COORD_LIMIT,
                                        0 <= rect_max_extent(root_ll, root_ur) <= 2 * COORD_LIMIT,
                                ;
                                assert((h.max_hallway_width - 1) * rect_max_extent(
                                    root_ll,
                                    root_ur,
                                ) >= 0) by (nonlinear_arith)
                                    requires
                                        0 <= h.max_hallway_width - 1,
                                        0 <= rect_max_extent(root_ll, root_ur),
                                ;
                            }
                            if can_strip_hallway && carved * 100 < h.hallway_percent * total_area {
                                let extent = match new_chunk.chunk_split() {
                                    ChunkSplit::Vertical => chunk.width(),
                                    ChunkSplit::Horizontal => chunk.height(),
                                };
                                let cap = if h.max_hallway_width < extent {
                                    h.max_hallway_width
                                } else {
                                    extent
                                };
                                let hallway_width = self.rng.pick_in_range(
                                    h.min_hallway_width,
                                    cap,
                                );
                                let strip = chunk.strip_hallway(
                                    new_chunk.chunk_split(),
                                    hallway_width,
                                );
                                let strip_width = strip.1.x - strip.0.x;
                                let strip_height = strip.1.y - strip.0.y;
                                proof {
                                    assert(strip_width * strip_height <= AREA_LIMIT)
                                        by (nonlinear_arith)
                                        requires
                                            0 <= strip_width <= 2 * COORD_LIMIT,
                                            0 <= strip_height <= 2 * COORD_LIMIT,
                                            AREA_LIMIT == 4 * COORD_LIMIT * COORD_LIMIT,
                                    ;
                                    assert(strip_width * strip_height >= 0) by (nonlinear_arith)
                                        requires
                                            0 <= strip_width,
                                            0 <= strip_height,
                                    ;
                                }
                                proof {
                                    match new_chunk.chunk_split {
                                        ChunkSplit::Vertical => {
                                            assert(chunk.spec_area() + strip_width * strip_height
                                                == c1.spec_area()) by (nonlinear_arith)
                                                requires
                                                    chunk.spec_area() == chunk.spec_width()
                                                        * chunk.spec_height(),
                                                    c1.spec_area() == c1.spec_width()
                                                        * c1.spec_height(),
                                                    chunk.spec_height() == c1.spec_height(),
                                                    strip_height == c1.spec_height(),
                                                    chunk.spec_width() + strip_width
                                                        == c1.spec_width(),
                                            ;
                                            assert(strip_width * strip_height <= (
                                            h.max_hallway_width - 1) * rect_max_extent(
                                                root_ll,
                                                root_ur,
                                            )) by (nonlinear_arith)
                                                requires
                                                    0 <= strip_width <= h.max_hallway_width - 1,
                                                    0 <= strip_height <= rect_max_extent(
                                                        root_ll,
                                                        root_ur,
                                                    ),
                                            ;
                                        },
                                        ChunkSplit::Horizontal => {
                                            assert(chunk.spec_area() + strip_width * strip_height
                                                == c1.spec_area()) by (nonlinear_arith)
                                                requires
                                                    chunk.spec_area() == chunk.spec_width()
                                                        * chunk.spec_height(),
                                                    c1.spec_area() == c1.spec_width()
                                                        * c1.spec_height(),
                                                    chunk.spec_width() == c1.spec_width(),
                                                    strip_width == c1.spec_width(),
                                                    chunk.spec_height() + strip_height
                                                        == c1.spec_height(),
                                            ;
                                            assert(strip_width * strip_height <= (
                                            h.max_hallway_width - 1) * rect_max_extent(
                                                root_ll,
                                                root_ur,
                                            )) by (nonlinear_arith)
                                                requires
                                                    0 <= strip_height <= h.max_hallway_width - 1,
                                                    0 <= strip_width <= rect_max_extent(
                                                        root_ll,
                                                        root_ur,
                                                    ),
                                            ;
                                        },
                                    }
                                }
                                let strip_area = strip_width * strip_height;
                                carved = carved + strip_area;
                                proof {
                                    assert(rect_within(strip.0, strip.1, c1.lower_left, c1.upper_right));
                                    assert(rect_within(strip.0, strip.1, root_ll, root_ur));
                                    assert(chunk.spec_area() + (carved - carved0)
                                        == c1.spec_area());
                                }
                                hallway_points.push(strip.0);
                                hallway_points.push(Point::new(strip.0.x(), strip.1.y()));
                                hallway_points.push(strip.1);
                                hallway_points.push(Point::new(strip.1.x(), strip.0.y()));
                            }
                        },
                        None => {},
                    }
                    proof {
                        assert(chunk.spec_area() + (carved - carved0) == c1.spec_area());
                        assert(chunk.wf());
                        assert(rect_within(
                            chunk.lower_left,
                            chunk.upper_right,
                            c1.lower_left,
                            c1.upper_right,
                        ));
                        assert(chunk.spec_width() >= 1 && chunk.spec_height() >= 1);
                        assert(chunk.spec_area() <= c1.spec_area()) by (nonlinear_arith)
                            requires
                                chunk.spec_area() == chunk.spec_width() * chunk.spec_height(),
                                c1.spec_area() == c1.spec_width() * c1.spec_height(),
                                0 <= chunk.spec_width() <= c1.spec_width(),
                                0 <= chunk.spec_height() <= c1.spec_height(),
                        ;
                        match new_chunk.chunk_split {
                            ChunkSplit::Vertical => {
                                assert(chunk.upper_right.x <= new_chunk.lower_left.x);
                            },
                            ChunkSplit::Horizontal => {
                                assert(chunk.upper_right.y <= new_chunk.lower_left.y);
                            },
                        }
                        assert(!rects_overlap(
                            chunk.lower_left,
                            chunk.upper_right,
                            new_chunk.lower_left,
                            new_chunk.upper_right,
                        ));
                    }
                    let ghost q2 = self.chunks@;
                    self.chunks.push(chunk);
                    self.chunks.push(new_chunk);
                    proof {
                        lemma_queue_measure_push(q2, chunk);
                        lemma_queue_measure_push(q2.push(chunk), new_chunk);
                        lemma_queue_area_push(q2, chunk);
                        lemma_queue_area_push(q2.push(chunk), new_chunk);
                        assert(self.chunks@ == q2.push(chunk).push(new_chunk));
                        assert(queue_area_sum(self.chunks@) == queue_area_sum(q2)
                            + chunk.spec_area() + new_chunk.spec_area());
                        assert forall|j: int| 0 <= j < self.chunks@.len() implies chunk_ok(
                            #[trigger] self.chunks@[j],
                            root_ll,
                            root_ur,
                        ) by {
                            if j < q2.len() {
                                assert(self.chunks@[j] == q2[j]);
                            } else if j == q2.len() {
                                assert(self.chunks@[j] == chunk);
                            } else {
                                assert(self.chunks@[j] == new_chunk);
                            }
                        }
                        assert forall|a: int, b: int|
                            0 <= a < b < self.chunks@.len() implies !rects_overlap(
                            (#[trigger] self.chunks@[a]).lower_left,
                            self.chunks@[a].upper_right,
                            (#[trigger] self.chunks@[b]).lower_left,
                            self.chunks@[b].upper_right,
                        ) by {
                            if b < q2.len() {
                            } else if b == q2.len() {
                                if a < q2.len() {
                                    assert(self.chunks@[a] == q2[a]);
                                    assert(!rects_overlap(
                                        q2[a].lower_left,
                                        q2[a].upper_right,
                                        c0.lower_left,
                                        c0.upper_right,
                                    ));
                                }
                            } else {
                                if a < q2.len() {
                                    assert(self.chunks@[a] == q2[a]);
                                    assert(!rects_overlap(
                                        q2[a].lower_left,
                                        q2[a].upper_right,
                                        c0.lower_left,
                                        c0.upper_right,
                                    ));
                                }
                            }
                        }
                        assert forall|i: int, j: int|
                            0 <= i < self.chunks@.len() && 0 <= j < dungeon.spec_rooms().len()
                                implies !rects_overlap(
                                (#[trigger] self.chunks@[i]).lower_left,
                                self.chunks@[i].upper_right,
                                (#[trigger] dungeon.spec_rooms()[j]).spec_lower_left(),
                                dungeon.spec_rooms()[j].spec_upper_right(),
                            ) by {
                                if i < q2.len() {
                                    assert(self.chunks@[i] == q2[i]);
                                } else {
                                    assert(!rects_overlap(
                                        c0.lower_left,
                                        c0.upper_right,
                                        dungeon.spec_rooms()[j].spec_lower_left(),
                                        dungeon.spec_rooms()[j].spec_upper_right(),
                                    ));
                                }
                            }
                        assert(queue_measure(self.chunks@) < queue_measure(q0));
                        assert forall|i: int| 0 <= i < self.chunks@.len() implies (
                        #[trigger] self.chunks@[i]).spec_area() >= 1 by {
                            assert(chunk_ok(self.chunks@[i], root_ll, root_ur));
                            let c = self.chunks@[i];
                            assert(c.spec_area() >= 1) by (nonlinear_arith)
                                requires
                                    c.spec_area() == c.spec_width() * c.spec_height(),
                                    c.spec_width() >= 1,
                                    c.spec_height() >= 1,
                            ;
                        }
                        lemma_queue_measure_nonneg(self.chunks@);
                    }
                },
                None => {
                    let ghost old_rooms = dungeon.spec_rooms();
                    dungeon.add_room(Room::new(chunk));
                    proof {
                        let ghost rooms = dungeon.spec_rooms();
                        let ghost room = rooms[rooms.len() - 1];
                        assert(room.spec_lower_left() == c0.lower_left);
                        assert(room.spec_upper_right() == c0.upper_right);
                        assert(rooms.drop_last() =~= old_rooms);
                        assert(rooms.last() == room);
                        assert(rooms_area_sum(rooms) == rooms_area_sum(old_rooms) + rect_area(
                            room.spec_lower_left(),
                            room.spec_upper_right(),
                        ));
                        assert(rect_area(room.spec_lower_left(), room.spec_upper_right())
                            == c0.spec_area());
                        assert(room_ok(room, root_ll, root_ur, dimension_options));
                        assert forall|i: int| 0 <= i < rooms.len() implies room_ok(
                            #[trigger] rooms[i],
                            root_ll,
                            root_ur,
                            dimension_options,
                        ) by {
                            if i < rooms.len() - 1 {
                                assert(rooms[i] == dungeon.spec_rooms()[i]);
                            }
                        }
                        assert forall|a: int, b: int| 0 <= a < b < rooms.len()
                            implies !rects_overlap(
                            (#[trigger] rooms[a]).spec_lower_left(),
                            rooms[a].spec_upper_right(),
                            (#[trigger] rooms[b]).spec_lower_left(),
                            rooms[b].spec_upper_right(),
                        ) by {
                            if b == rooms.len() - 1 {
                                assert(!rects_overlap(
                                    q0[pi].lower_left,
                                    q0[pi].upper_right,
                                    rooms[a].spec_lower_left(),
                                    rooms[a].spec_upper_right(),
                                ));
                            }
                        }
                        assert forall|i: int, j: int|
                            0 <= i < self.chunks@.len() && 0 <= j < rooms.len()
                                implies !rects_overlap(
                                (#[trigger] self.chunks@[i]).lower_left,
                                self.chunks@[i].upper_right,
                                (#[trigger] rooms[j]).spec_lower_left(),
                                rooms[j].spec_upper_right(),
                            ) by {
                                if j == rooms.len() - 1 {
                                    assert(!rects_overlap(
                                        self.chunks@[i].lower_left,
                                        self.chunks@[i].upper_right,
                                        c0.lower_left,
                                        c0.upper_right,
                                    ));
                                }
                            }
                        assert(queue_measure(self.chunks@) < queue_measure(q0));
                        assert forall|i: int| 0 <= i < self.chunks@.len() implies (
                        #[trigger] self.chunks@[i]).spec_area() >= 1 by {
                            assert(chunk_ok(self.chunks@[i], root_ll, root_ur));
                            let c = self.chunks@[i];
                            assert(c.spec_area() >= 1) by (nonlinear_arith)
                                requires
                                    c.spec_area() == c.spec_width() * c.spec_height(),
                                    c.spec_width() >= 1,
                                    c.spec_height() >= 1,
                            ;
                        }
                        lemma_queue_measure_nonneg(self.chunks@);
                    }
                },
            }
        }
        proof {
            assert(queue_area_sum(self.chunks@) == 0);
        }
        match merge_points(&hallway_points) {
            Ok(hallways) => {
                proof {
                    assert forall|i: int, j: int|
                        0 <= i < hallways@.len() && 0 <= j < hallways@[i].spec_points().len()
                            implies rect_within(
                            #[trigger] hallways@[i].spec_points()[j],
                            hallways@[i].spec_points()[j],
                            root_ll,
                            root_ur,
                        ) by {
                        let p = hallways@[i].spec_points()[j];
                        assert(hallway_points@.contains(p));
                        let k = choose|k: int|
                            0 <= k < hallway_points@.len() && hallway_points@[k] == p;
                        assert(rect_within(
                            hallway_points@[k],
                            hallway_points@[k],
                            root_ll,
                            root_ur,
                        ));
                    }
                }
                dungeon.add_hallways(hallways);
                Ok(dungeon)
            },
            Err(e) => Err(e),
        }
    }
}


/// The total area of a sequence of carved strips.
pub open spec fn carve_sum(carves: Seq<int>) -> int
    decreases carves.len(),
{
    if carves.len() == 0 {
        0
    } else {
        carve_sum(carves.drop_last()) + carves.last()
    }
}

/// Law: the hallway budget is advisory, not a hard cap, but its overshoot
/// is bounded. If every strip of a carve sequence was admitted only while
/// the area carved before it was still under `percent` percent of the total
/// area, then the final carved area exceeds that budget by less than one
/// carve's worth: the last strip's area.
pub proof fn lemma_hallway_budget_overshoot(carves: Seq<int>, percent: int, total: int)
    requires
        carves.len() >= 1,
        forall|i: int|
            0 <= i < carves.len() ==> carve_sum(#[trigger] carves.take(i)) * 100 < percent * total,
    ensures
        carve_sum(carves) * 100 < percent * total + 100 * carves.last(),
{
    let n = carves.len() as int;
    assert(carves.take(n - 1) =~= carves.drop_last());
    assert(carve_sum(carves.take(n - 1)) * 100 < percent * total);
    assert(carve_sum(carves) == carve_sum(carves.drop_last()) + carves.last());
}

} // verus!
