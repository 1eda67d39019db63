//! Entities, their components, and the manager that issues identifiers and
//! attaches components.
use vstd::prelude::*;

use crate::store::{lemma_lookup, ComponentMap};
use crate::{HEIGHT, WIDTH};

verus! {

/// An entity is a plain identifier; its components live in the columns.
pub type Entity = usize;

#[derive(Debug, Clone, Copy, PartialEq, Eq, Structural)]
pub struct Position {
    pub x: u32,
    pub y: u32,
}

#[derive(Debug, Clone, Copy, PartialEq, Eq, Structural)]
pub struct Velocity {
    pub dx: i32,
    pub dy: i32,
}

#[derive(Debug, Clone, Copy, PartialEq, Eq, Structural)]
pub struct Sprite {
    pub x_size: usize,
    pub y_size: usize,
    pub color: u32,
}

/// The fixed vocabulary of entity labels.
#[derive(Debug, Clone, Copy, PartialEq, Eq, Structural)]
pub enum TagKind {
    Player,
    Enemy,
}

/// A descriptive label attached to an entity.
#[derive(Debug, Clone, Copy, PartialEq, Eq, Structural)]
pub struct Tag {
    pub tag: TagKind,
}

/// The set of labels an entity carries, one flag per kind.
#[derive(Debug, Clone, Copy, PartialEq, Eq, Structural)]
pub struct TagSet {
    player: bool,
    enemy: bool,
}

impl View for TagSet {
    type V = Set<TagKind>;

    closed spec fn view(&self) -> Set<TagKind> {
        let s = if self.player {
            Set::empty().insert(TagKind::Player)
        } else {
            Set::empty()
        };
        if self.enemy {
            s.insert(TagKind::Enemy)
        } else {
            s
        }
    }
}

impl TagSet {
    pub fn new() -> (r: Self)
        ensures
            r@ == Set::<TagKind>::empty(),
    {
        TagSet { player: false, enemy: false }
    }

    pub fn contains(&self, tag: Tag) -> (r: bool)
        ensures
            r == self@.contains(tag.tag),
    {
        match tag.tag {
            TagKind::Player => self.player,
            TagKind::Enemy => self.enemy,
        }
    }

    pub fn insert(&mut self, tag: Tag)
        ensures
            final(self)@ == old(self)@.insert(tag.tag),
    {
        match tag.tag {
            TagKind::Player => self.player = true,
            TagKind::Enemy => self.enemy = true,
        }
        proof {
            assert(final(self)@ =~= old(self)@.insert(tag.tag));
        }
    }

    /// Number of distinct labels held.
    pub fn len(&self) -> (r: usize)
        ensures
            r == self@.len(),
            self@.finite(),
    {
        proof {
            let e = Set::<TagKind>::empty();
            assert(!e.contains(TagKind::Player));
            assert(!e.insert(TagKind::Player).contains(TagKind::Enemy));
            assert(!e.contains(TagKind::Enemy));
        }
        let a: usize = if self.player { 1 } else { 0 };
        let b: usize = if self.enemy { 1 } else { 0 };
        a + b
    }
}

/// Failure of an operation that addressed a component the entity lacks.
#[derive(Debug, Clone, Copy, PartialEq, Eq, Structural)]
pub struct LookupError {
    pub entity: Entity,
}

/// One column per component kind.
pub struct Components {
    pub positions: ComponentMap<Position>,
    pub velocities: ComponentMap<Velocity>,
    pub sprites: ComponentMap<Sprite>,
    pub tags: ComponentMap<TagSet>,
}

impl Components {
    pub open spec fn wf(&self) -> bool {
        &&& self.positions.wf()
        &&& self.velocities.wf()
        &&& self.sprites.wf()
        &&& self.tags.wf()
    }

    /// The labels of `e`; none when it has no tag entry.
    pub open spec fn tags_of(&self, e: Entity) -> Set<TagKind> {
        match self.tags.spec_get(e) {
            Some(t) => t@,
            None => Set::empty(),
        }
    }

    pub fn new() -> (r: Self)
        ensures
            r.wf(),
            r.positions@.len() == 0,
            r.velocities@.len() == 0,
            r.sprites@.len() == 0,
            r.tags@.len() == 0,
    {
        Components {
            positions: ComponentMap::new(),
            velocities: ComponentMap::new(),
            sprites: ComponentMap::new(),
            tags: ComponentMap::new(),
        }
    }
}

/// Issues entity identifiers and owns the component columns.
pub struct EntityManager {
    next_id: Entity,
    components: Components,
}

impl EntityManager {
    /// The identifier the next `create_entity` hands out; every one issued so
    /// far is below it.
    pub closed spec fn spec_next_id(&self) -> nat {
        self.next_id as nat
    }

    pub closed spec fn spec_components(&self) -> Components {
        self.components
    }

    pub open spec fn wf(&self) -> bool {
        self.spec_components().wf()
    }

    pub fn new() -> (r: Self)
        ensures
            r.wf(),
            r.spec_next_id() == 0,
            r.spec_components().positions@.len() == 0,
            r.spec_components().velocities@.len() == 0,
            r.spec_components().sprites@.len() == 0,
            r.spec_components().tags@.len() == 0,
    {
        EntityManager { next_id: 0, components: Components::new() }
    }

    /// Read access to the component columns.
    pub fn components(&self) -> (r: &Components)
        ensures
            *r == self.spec_components(),
    {
        &self.components
    }

    pub fn create_entity(&mut self) -> (r: Entity)
        requires
            old(self).spec_next_id() < usize::MAX,
        ensures
            r == old(self).spec_next_id(),
            final(self).spec_next_id() == old(self).spec_next_id() + 1,
            final(self).spec_components() == old(self).spec_components(),
    {
        let entity = self.next_id;
        self.next_id = self.next_id + 1;
        entity
    }

    pub fn add_position(&mut self, entity: Entity, x: u32, y: u32)
        requires
            old(self).wf(),
        ensures
            final(self).wf(),
            final(self).spec_next_id() == old(self).spec_next_id(),
            final(self).spec_components().positions.spec_get(entity) == Some(Position { x, y }),
            forall|k: Entity|
                k != entity ==> final(self).spec_components().positions.spec_get(k)
                    == old(self).spec_components().positions.spec_get(k),
            final(self).spec_components().velocities == old(self).spec_components().velocities,
            final(self).spec_components().sprites == old(self).spec_components().sprites,
            final(self).spec_components().tags == old(self).spec_components().tags,
    {
        self.components.positions.insert(entity, Position { x, y });
    }

    pub fn add_velocity(&mut self, entity: Entity, dx: i32, dy: i32)
        requires
            old(self).wf(),
        ensures
            final(self).wf(),
            final(self).spec_next_id() == old(self).spec_next_id(),
            final(self).spec_components().velocities.spec_get(entity) == Some(Velocity { dx, dy }),
            forall|k: Entity|
                k != entity ==> final(self).spec_components().velocities.spec_get(k)
                    == old(self).spec_components().velocities.spec_get(k),
            final(self).spec_components().positions == old(self).spec_components().positions,
            final(self).spec_components().sprites == old(self).spec_components().sprites,
            final(self).spec_components().tags == old(self).spec_components().tags,
    {
        self.components.velocities.insert(entity, Velocity { dx, dy });
    }

    /// Zeroes the flagged axes of the entity's velocity and keeps the others;
    /// fails when the entity has no velocity.
    pub fn reset_velocity(&mut self, entity: Entity, reset_x: bool, reset_y: bool) -> (r: Result<
        (),
        LookupError,
    >)
        requires
            old(self).wf(),
        ensures
            final(self).wf(),
            final(self).spec_next_id() == old(self).spec_next_id(),
            r is Err <==> old(self).spec_components().velocities.spec_get(entity) is None,
            r is Err ==> r == Err::<(), LookupError>(LookupError { entity })
                && final(self).spec_components() == old(self).spec_components(),
            r is Ok ==> {
                let v = old(self).spec_components().velocities.spec_get(entity)->Some_0;
                final(self).spec_components().velocities.spec_get(entity) == Some(
                    Velocity {
                        dx: if reset_x { 0 } else { v.dx },
                        dy: if reset_y { 0 } else { v.dy },
                    },
                )
            },
            forall|k: Entity|
                k != entity ==> final(self).spec_components().velocities.spec_get(k)
                    == old(self).spec_components().velocities.spec_get(k),
            final(self).spec_components().positions == old(self).spec_components().positions,
            final(self).spec_components().sprites == old(self).spec_components().sprites,
            final(self).spec_components().tags == old(self).spec_components().tags,
    {
        match self.components.velocities.get(entity) {
            None => Err(LookupError { entity }),
            Some(original) => {
                let dx: i32 = if reset_x { 0 } else { original.dx };
                let dy: i32 = if reset_y { 0 } else { original.dy };
                self.components.velocities.insert(entity, Velocity { dx, dy });
                Ok(())
            },
        }
    }

    /// Adds `tag` to the entity's labels. Returns whether it was new: adding a
    /// label the entity already has changes nothing and returns `false`, so
    /// the caller can report it.
    pub fn add_tag(&mut self, entity: Entity, tag: Tag) -> (r: bool)
        requires
            old(self).wf(),
        ensures
            final(self).wf(),
            final(self).spec_next_id() == old(self).spec_next_id(),
            r == !old(self).spec_components().tags_of(entity).contains(tag.tag),
            final(self).spec_components().tags.spec_get(entity) is Some,
            final(self).spec_components().tags_of(entity) == old(
                self,
            ).spec_components().tags_of(entity).insert(tag.tag),
            forall|k: Entity|
                k != entity ==> final(self).spec_components().tags.spec_get(k) == old(
                    self,
                ).spec_components().tags.spec_get(k),
            final(self).spec_components().positions == old(self).spec_components().positions,
            final(self).spec_components().velocities == old(self).spec_components().velocities,
            final(self).spec_components().sprites == old(self).spec_components().sprites,
    {
        let mut set = match self.components.tags.get(entity) {
            Some(s) => s,
            None => TagSet::new(),
        };
        if set.contains(tag) {
            false
        } else {
            set.insert(tag);
            self.components.tags.insert(entity, set);
            true
        }
    }

    pub fn add_sprite(&mut self, entity: Entity, x_size: usize, y_size: usize, color: u32)
        requires
            old(self).wf(),
        ensures
            final(self).wf(),
            final(self).spec_next_id() == old(self).spec_next_id(),
            final(self).spec_components().sprites.spec_get(entity) == Some(
                Sprite { x_size, y_size, color },
            ),
            forall|k: Entity|
                k != entity ==> final(self).spec_components().sprites.spec_get(k)
                    == old(self).spec_components().sprites.spec_get(k),
            final(self).spec_components().positions == old(self).spec_components().positions,
            final(self).spec_components().velocities == old(self).spec_components().velocities,
            final(self).spec_components().tags == old(self).spec_components().tags,
    {
        self.components.sprites.insert(entity, Sprite { x_size, y_size, color });
    }
}

/// `v` saturated into `[lo, hi]`.
pub open spec fn clamp_spec(v: int, lo: int, hi: int) -> int {
    if v < lo {
        lo
    } else if v > hi {
        hi
    } else {
        v
    }
}

/// One axis of a move: the displaced coordinate is saturated into
/// `[0, bound]` and kept only if the footprint then still ends within
/// `bound`; otherwise the old coordinate stays.
pub open spec fn axis_step(p: u32, d: i32, extent: usize, bound: usize) -> u32 {
    let n = clamp_spec(p + d, 0, bound as int);
    if n + extent <= bound {
        n as u32
    } else {
        p
    }
}

/// Where one movement pass puts an entity: only entities with both a velocity
/// and a sprite move.
pub open spec fn moved(
    pos: Position,
    vel: Option<Velocity>,
    sprite: Option<Sprite>,
    width: usize,
    height: usize,
) -> Position {
    match (vel, sprite) {
        (Some(v), Some(s)) => Position {
            x: axis_step(pos.x, v.dx, s.x_size, width),
            y: axis_step(pos.y, v.dy, s.y_size, height),
        },
        _ => pos,
    }
}

/// The position column after one movement pass.
pub open spec fn moved_all(
    ps: Seq<(Entity, Position)>,
    vels: ComponentMap<Velocity>,
    sprites: ComponentMap<Sprite>,
    width: usize,
    height: usize,
) -> Seq<(Entity, Position)> {
    Seq::new(
        ps.len(),
        |i: int|
            (ps[i].0, moved(ps[i].1, vels.spec_get(ps[i].0), sprites.spec_get(ps[i].0), width, height)),
    )
}

/// The position column after `n` movement passes.
pub open spec fn moved_n(
    ps: Seq<(Entity, Position)>,
    vels: ComponentMap<Velocity>,
    sprites: ComponentMap<Sprite>,
    width: usize,
    height: usize,
    n: nat,
) -> Seq<(Entity, Position)>
    decreases n,
{
    if n == 0 {
        ps
    } else {
        moved_all(moved_n(ps, vels, sprites, width, height, (n - 1) as nat), vels, sprites, width, height)
    }
}

/// Every entity with a sprite lies wholly on a `width` by `height` screen.
pub open spec fn sprites_on_screen(
    ps: Seq<(Entity, Position)>,
    sprites: ComponentMap<Sprite>,
    width: usize,
    height: usize,
) -> bool {
    forall|i: int|
        0 <= i < ps.len() ==> match #[trigger] sprites.spec_get(ps[i].0) {
            Some(s) => ps[i].1.x + s.x_size <= width && ps[i].1.y + s.y_size <= height,
            None => true,
        }
}

/// Saturates `value` into `[low, high]`.
pub fn clamp(low: i64, value: i64, high: i64) -> (r: i64)
    requires
        low <= high,
    ensures
        r == clamp_spec(value as int, low as int, high as int),
{
    if value < low {
        low
    } else if value > high {
        high
    } else {
        value
    }
}

fn step_axis(p: u32, d: i32, extent: usize, bound: usize) -> (r: u32)
    requires
        bound <= u32::MAX,
    ensures
        r == axis_step(p, d, extent, bound),
{
    let n = clamp(0, p as i64 + d as i64, bound as i64) as usize;
    if extent <= bound - n {
        n as u32
    } else {
        p
    }
}

/// One movement pass on a `width` by `height` screen: each entity with a
/// position, a velocity and a sprite moves per axis as `axis_step` says;
/// every other position stays.
pub fn move_entities(em: &mut EntityManager, width: usize, height: usize)
    requires
        old(em).wf(),
        width <= u32::MAX,
        height <= u32::MAX,
    ensures
        final(em).wf(),
        final(em).spec_next_id() == old(em).spec_next_id(),
        final(em).spec_components().positions@ == moved_all(
            old(em).spec_components().positions@,
            old(em).spec_components().velocities,
            old(em).spec_components().sprites,
            width,
            height,
        ),
        forall|e: Entity|
            #[trigger] final(em).spec_components().positions.spec_get(e) == match old(
                em,
            ).spec_components().positions.spec_get(e) {
                Some(p) => Some(
                    moved(
                        p,
                        old(em).spec_components().velocities.spec_get(e),
                        old(em).spec_components().sprites.spec_get(e),
                        width,
                        height,
                    ),
                ),
                None => None,
            },
        final(em).spec_components().velocities == old(em).spec_components().velocities,
        final(em).spec_components().sprites == old(em).spec_components().sprites,
        final(em).spec_components().tags == old(em).spec_components().tags,
{
    let ghost old_ps = em.components.positions@;
    let ghost target = moved_all(
        old_ps,
        em.components.velocities,
        em.components.sprites,
        width,
        height,
    );
    let n = em.components.positions.len();
    let mut i: usize = 0;
    while i < n
        invariant
            em.components.velocities == old(em).components.velocities,
            em.components.sprites == old(em).components.sprites,
            em.components.tags == old(em).components.tags,
            em.next_id == old(em).next_id,
            old(em).wf(),
            old_ps == old(em).components.positions@,
            target == moved_all(old_ps, em.components.velocities, em.components.sprites, width, height),
            width <= u32::MAX,
            height <= u32::MAX,
            n == old_ps.len(),
            em.components.positions@.len() == n,
            i <= n,
            forall|j: int| 0 <= j < i ==> em.components.positions@[j] == target[j],
            forall|j: int| i <= j < n ==> em.components.positions@[j] == old_ps[j],
        decreases n - i,
    {
        let (entity, pos) = em.components.positions.entry_at(i);
        let vel = em.components.velocities.get(entity);
        let sprite = em.components.sprites.get(entity);
        match (vel, sprite) {
            (Some(v), Some(s)) => {
                let x = step_axis(pos.x, v.dx, s.x_size, width);
                let y = step_axis(pos.y, v.dy, s.y_size, height);
                em.components.positions.set_value_at(i, Position { x, y });
            },
            _ => {},
        }
        i += 1;
    }
    proof {
        assert(em.components.positions@ =~= target);
        let new_ps = em.components.positions@;
        assert forall|e: Entity|
            #[trigger] em.components.positions.spec_get(e) == match old(em).components.positions.spec_get(e) {
                Some(p) => Some(
                    moved(p, em.components.velocities.spec_get(e), em.components.sprites.spec_get(e), width, height),
                ),
                None => None,
            } by {
            lemma_lookup(old_ps, e);
            lemma_lookup(new_ps, e);
            if exists|i: int| 0 <= i < old_ps.len() && old_ps[i].0 == e {
                let i = choose|i: int| 0 <= i < old_ps.len() && old_ps[i].0 == e;
                assert(new_ps[i] == target[i]);
            } else {
                assert forall|i: int| 0 <= i < new_ps.len() implies new_ps[i].0 != e by {
                    assert(new_ps[i] == target[i]);
                }
            }
        }
    }
}

/// One movement pass on the configured screen.
pub fn movement_system(em: &mut EntityManager)
    requires
        old(em).wf(),
    ensures
        final(em).wf(),
        final(em).spec_next_id() == old(em).spec_next_id(),
        final(em).spec_components().positions@ == moved_all(
            old(em).spec_components().positions@,
            old(em).spec_components().velocities,
            old(em).spec_components().sprites,
            WIDTH,
            HEIGHT,
        ),
        forall|e: Entity|
            #[trigger] final(em).spec_components().positions.spec_get(e) == match old(
                em,
            ).spec_components().positions.spec_get(e) {
                Some(p) => Some(
                    moved(
                        p,
                        old(em).spec_components().velocities.spec_get(e),
                        old(em).spec_components().sprites.spec_get(e),
                        WIDTH,
                        HEIGHT,
                    ),
                ),
                None => None,
            },
        final(em).spec_components().velocities == old(em).spec_components().velocities,
        final(em).spec_components().sprites == old(em).spec_components().sprites,
        final(em).spec_components().tags == old(em).spec_components().tags,
{
    move_entities(em, WIDTH, HEIGHT);
}

/// Movement keeps every sprite on screen: if each entity with a sprite lies
/// wholly on the screen before, it still does after any number of passes.
pub proof fn lemma_sprites_stay_on_screen(
    ps: Seq<(Entity, Position)>,
    vels: ComponentMap<Velocity>,
    sprites: ComponentMap<Sprite>,
    width: usize,
    height: usize,
    n: nat,
)
    requires
        width <= u32::MAX,
        height <= u32::MAX,
        sprites_on_screen(ps, sprites, width, height),
    ensures
        sprites_on_screen(moved_n(ps, vels, sprites, width, height, n), sprites, width, height),
    decreases n,
{
    if n > 0 {
        let prev = moved_n(ps, vels, sprites, width, height, (n - 1) as nat);
        lemma_sprites_stay_on_screen(ps, vels, sprites, width, height, (n - 1) as nat);
        let next = moved_all(prev, vels, sprites, width, height);
        assert forall|i: int| 0 <= i < next.len() implies match #[trigger] sprites.spec_get(
            next[i].0,
        ) {
            Some(s) => next[i].1.x + s.x_size <= width && next[i].1.y + s.y_size <= height,
            None => true,
        } by {
            assert(next[i].0 == prev[i].0);
            assert(sprites.spec_get(prev[i].0) == sprites.spec_get(next[i].0));
        }
    }
}

/// An entity without a sprite keeps its position through any number of
/// movement passes, whatever its velocity.
pub proof fn lemma_spriteless_never_moves(
    ps: Seq<(Entity, Position)>,
    vels: ComponentMap<Velocity>,
    sprites: ComponentMap<Sprite>,
    width: usize,
    height: usize,
    n: nat,
    i: int,
)
    requires
        0 <= i < ps.len(),
        sprites.spec_get(ps[i].0) is None,
    ensures
        moved_n(ps, vels, sprites, width, height, n).len() == ps.len(),
        moved_n(ps, vels, sprites, width, height, n)[i] == ps[i],
    decreases n,
{
    if n > 0 {
        lemma_spriteless_never_moves(ps, vels, sprites, width, height, (n - 1) as nat, i);
    }
}

/// Pixel `p` lies on row `j` of a rectangle whose first row starts at index
/// `base`, with rows `w` apart and `sx` pixels long.
pub open spec fn row_hit(p: int, base: int, w: int, sx: int, j: int) -> bool {
    base + j * w <= p < base + j * w + sx
}

/// Pixel `p` lies on one of the first `rows` rows of the rectangle.
pub open spec fn rect_hit(p: int, base: int, w: int, sx: int, rows: int) -> bool {
    exists|j: int| 0 <= j < rows && #[trigger] row_hit(p, base, w, sx, j)
}

/// Buffer index `p` is covered by a sprite drawn at `pos` on a `width` by
/// `height` row-major buffer: the top-left corner lies on screen and `p` is
/// `pos.y * width + pos.x + i + j * width` for a column `i` and row `j` of the
/// sprite.
pub open spec fn covers(pos: Position, s: Sprite, width: usize, height: usize, p: int) -> bool {
    &&& pos.x < width
    &&& pos.y < height
    &&& rect_hit(p, pos.y * width + pos.x, width as int, s.x_size as int, s.y_size as int)
}

/// `buf` with the sprite drawn at `pos`; indices past the end are dropped.
pub open spec fn paint(buf: Seq<u32>, pos: Position, s: Sprite, width: usize, height: usize) -> Seq<u32> {
    Seq::new(buf.len(), |p: int| if covers(pos, s, width, height, p) { s.color } else { buf[p] })
}

/// `buf` with the sprite of each entry drawn in order, later over earlier.
pub open spec fn painted(
    buf: Seq<u32>,
    ps: Seq<(Entity, Position)>,
    sprites: ComponentMap<Sprite>,
    width: usize,
    height: usize,
) -> Seq<u32>
    decreases ps.len(),
{
    if ps.len() == 0 {
        buf
    } else {
        let prev = painted(buf, ps.drop_last(), sprites, width, height);
        match sprites.spec_get(ps.last().0) {
            Some(s) => paint(prev, ps.last().1, s, width, height),
            None => prev,
        }
    }
}

proof fn lemma_rect_hit_next(p: int, base: int, w: int, sx: int, j: int)
    requires
        0 <= j,
    ensures
        rect_hit(p, base, w, sx, j + 1) == (rect_hit(p, base, w, sx, j) || row_hit(
            p,
            base,
            w,
            sx,
            j,
        )),
{
    if rect_hit(p, base, w, sx, j + 1) {
        let k = choose|k: int| 0 <= k < j + 1 && #[trigger] row_hit(p, base, w, sx, k);
        if k < j {
            assert(rect_hit(p, base, w, sx, j));
        }
    }
    if rect_hit(p, base, w, sx, j) {
        let k = choose|k: int| 0 <= k < j && #[trigger] row_hit(p, base, w, sx, k);
        assert(row_hit(p, base, w, sx, k));
    }
}

proof fn lemma_rect_hit_past(p: int, base: int, w: int, sx: int, j: int, rows: int)
    requires
        0 <= j <= rows,
        0 <= w,
        p < base + j * w,
    ensures
        rect_hit(p, base, w, sx, rows) == rect_hit(p, base, w, sx, j),
{
    if rect_hit(p, base, w, sx, rows) {
        let k = choose|k: int| 0 <= k < rows && #[trigger] row_hit(p, base, w, sx, k);
        if k >= j {
            assert(k * w >= j * w) by (nonlinear_arith)
                requires
                    k >= j,
                    w >= 0,
            ;
        } else {
            assert(row_hit(p, base, w, sx, k));
        }
    }
    if rect_hit(p, base, w, sx, j) {
        let k = choose|k: int| 0 <= k < j && #[trigger] row_hit(p, base, w, sx, k);
        assert(row_hit(p, base, w, sx, k));
    }
}

/// Draws one sprite at `pos` into `buffer`, dropping indices past its end.
fn paint_rect(buffer: &mut [u32], pos: Position, s: Sprite, width: usize, height: usize)
    ensures
        final(buffer)@ == paint(old(buffer)@, pos, s, width, height),
{
    let ghost old_buf = buffer@;
    let x = pos.x as usize;
    let y = pos.y as usize;
    if x < width && y < height {
        let len = buffer.len();
        let base = match y.checked_mul(width) {
            Some(m) => m.checked_add(x),
            None => None,
        };
        match base {
            None => {
                proof {
                    assert forall|p: int| 0 <= p < len implies !covers(pos, s, width, height, p) by {
                        if rect_hit(p, pos.y * width + pos.x, width as int, s.x_size as int, s.y_size as int) {
                            let k = choose|k: int| 0 <= k < s.y_size && #[trigger] row_hit(
                                p,
                                pos.y * width + pos.x,
                                width as int,
                                s.x_size as int,
                                k,
                            );
                            assert(k * width >= 0) by (nonlinear_arith)
                                requires
                                    k >= 0,
                                    width >= 0,
                            ;
                        }
                    }
                    assert(buffer@ =~= paint(old_buf, pos, s, width, height));
                }
            },
            Some(base) => {
                let ghost b = base as int;
                let ghost w = width as int;
                let ghost sx = s.x_size as int;
                assert(b == pos.y * width + pos.x);
                let mut row_start: usize = base;
                let mut past_end = false;
                let mut j: usize = 0;
                while j < s.y_size && !past_end
                    invariant
                        len == buffer@.len(),
                        len == old_buf.len(),
                        w == width,
                        sx == s.x_size,
                        j <= s.y_size,
                        past_end ==> b + j * w >= len,
                        !past_end ==> row_start == b + j * w,
                        forall|p: int|
                            0 <= p < len ==> buffer@[p] == if rect_hit(p, b, w, sx, j as int) {
                                s.color
                            } else {
                                old_buf[p]
                            },
                    decreases s.y_size - j,
                {
                    assert((j + 1) * w == j * w + w) by (nonlinear_arith);
                    if row_start >= len {
                        past_end = true;
                    } else {
                        let mut i: usize = 0;
                        while i < s.x_size && i < len - row_start
                            invariant
                                len == buffer@.len(),
                                len == old_buf.len(),
                                w == width,
                                sx == s.x_size,
                                i <= s.x_size,
                                row_start < len,
                                row_start == b + j * w,
                                i <= len - row_start,
                                forall|p: int|
                                    0 <= p < len ==> buffer@[p] == if rect_hit(p, b, w, sx, j as int)
                                        || (row_start <= p < row_start + i) {
                                        s.color
                                    } else {
                                        old_buf[p]
                                    },
                            decreases s.x_size - i,
                        {
                            buffer[row_start + i] = s.color;
                            i += 1;
                        }
                        proof {
                            assert forall|p: int| 0 <= p < len implies buffer@[p] == if rect_hit(
                                p,
                                b,
                                w,
                                sx,
                                j + 1,
                            ) {
                                s.color
                            } else {
                                old_buf[p]
                            } by {
                                lemma_rect_hit_next(p, b, w, sx, j as int);
                            }
                        }
                        if len - row_start <= width {
                            past_end = true;
                        } else {
                            row_start = row_start + width;
                        }
                    }
                    j += 1;
                }
                proof {
                    assert forall|p: int| 0 <= p < len implies buffer@[p] == paint(
                        old_buf,
                        pos,
                        s,
                        width,
                        height,
                    )[p] by {
                        if j < s.y_size {
                            lemma_rect_hit_past(p, b, w, sx, j as int, s.y_size as int);
                        }
                    }
                    assert(buffer@ =~= paint(old_buf, pos, s, width, height));
                }
            },
        }
    } else {
        proof {
            assert(buffer@ =~= paint(old_buf, pos, s, width, height));
        }
    }
}

/// Draws every entity that has a position and a sprite into a row-major
/// `width` by `height` buffer, in ascending entity order, later entities over
/// earlier ones. Indices past the buffer's end are dropped.
pub fn render_entities(em: &EntityManager, buffer: &mut [u32], width: usize, height: usize)
    requires
        em.wf(),
    ensures
        final(buffer)@ == painted(
            old(buffer)@,
            em.spec_components().positions@,
            em.spec_components().sprites,
            width,
            height,
        ),
{
    let ghost old_buf = buffer@;
    let ghost ps = em.components.positions@;
    let n = em.components.positions.len();
    let mut k: usize = 0;
    while k < n
        invariant
            em.wf(),
            ps == em.components.positions@,
            n == ps.len(),
            k <= n,
            buffer@ == painted(old_buf, ps.take(k as int), em.components.sprites, width, height),
        decreases n - k,
    {
        let (entity, pos) = em.components.positions.entry_at(k);
        proof {
            assert(ps.take(k + 1).drop_last() =~= ps.take(k as int));
            assert(ps.take(k + 1).last() == ps[k as int]);
        }
        match em.components.sprites.get(entity) {
            Some(s) => paint_rect(buffer, pos, s, width, height),
            None => {},
        }
        k += 1;
    }
    proof {
        assert(ps.take(n as int) =~= ps);
    }
}

/// Draws every entity with a position and a sprite on the configured screen.
pub fn draw_entities(em: &EntityManager, buffer: &mut [u32])
    requires
        em.wf(),
    ensures
        final(buffer)@ == painted(
            old(buffer)@,
            em.spec_components().positions@,
            em.spec_components().sprites,
            WIDTH,
            HEIGHT,
        ),
{
    render_entities(em, buffer, WIDTH, HEIGHT);
}

/// Drawing never changes the buffer's length, and leaves every pixel that no
/// drawn sprite covers as it was: only covered, in-bounds pixels are written.
pub proof fn lemma_render_writes_only_covered(
    buf: Seq<u32>,
    ps: Seq<(Entity, Position)>,
    sprites: ComponentMap<Sprite>,
    width: usize,
    height: usize,
    p: int,
)
    requires
        0 <= p < buf.len(),
        forall|i: int|
            0 <= i < ps.len() && (#[trigger] sprites.spec_get(ps[i].0)) is Some ==> !covers(
                ps[i].1,
                sprites.spec_get(ps[i].0)->Some_0,
                width,
                height,
                p,
            ),
    ensures
        painted(buf, ps, sprites, width, height).len() == buf.len(),
        painted(buf, ps, sprites, width, height)[p] == buf[p],
    decreases ps.len(),
{
    if ps.len() > 0 {
        let t = ps.drop_last();
        assert forall|i: int|
            0 <= i < t.len() && (#[trigger] sprites.spec_get(t[i].0)) is Some implies !covers(
            t[i].1,
            sprites.spec_get(t[i].0)->Some_0,
            width,
            height,
            p,
        ) by {
            assert(t[i] == ps[i]);
        }
        lemma_render_writes_only_covered(buf, t, sprites, width, height, p);
        assert(sprites.spec_get(ps[ps.len() - 1].0) == sprites.spec_get(ps.last().0));
    }
}

/// Overlapping sprites are not blended: a pixel takes the color of the last
/// entity in drawing order whose sprite covers it.
pub proof fn lemma_render_last_wins(
    buf: Seq<u32>,
    ps: Seq<(Entity, Position)>,
    sprites: ComponentMap<Sprite>,
    width: usize,
    height: usize,
    p: int,
    i: int,
)
    requires
        0 <= p < buf.len(),
        0 <= i < ps.len(),
        sprites.spec_get(ps[i].0) is Some,
        covers(ps[i].1, sprites.spec_get(ps[i].0)->Some_0, width, height, p),
        forall|j: int|
            i < j < ps.len() && (#[trigger] sprites.spec_get(ps[j].0)) is Some ==> !covers(
                ps[j].1,
                sprites.spec_get(ps[j].0)->Some_0,
                width,
                height,
                p,
            ),
    ensures
        painted(buf, ps, sprites, width, height).len() == buf.len(),
        painted(buf, ps, sprites, width, height)[p] == sprites.spec_get(ps[i].0)->Some_0.color,
    decreases ps.len(),
{
    let t = ps.drop_last();
    if i == ps.len() - 1 {
        lemma_painted_len(buf, t, sprites, width, height);
    } else {
        assert(t[i] == ps[i]);
        assert forall|j: int|
            i < j < t.len() && (#[trigger] sprites.spec_get(t[j].0)) is Some implies !covers(
            t[j].1,
            sprites.spec_get(t[j].0)->Some_0,
            width,
            height,
            p,
        ) by {
            assert(t[j] == ps[j]);
        }
        lemma_render_last_wins(buf, t, sprites, width, height, p, i);
        assert(sprites.spec_get(ps[ps.len() - 1].0) == sprites.spec_get(ps.last().0));
    }
}

proof fn lemma_painted_len(
    buf: Seq<u32>,
    ps: Seq<(Entity, Position)>,
    sprites: ComponentMap<Sprite>,
    width: usize,
    height: usize,
)
    ensures
        painted(buf, ps, sprites, width, height).len() == buf.len(),
    decreases ps.len(),
{
    if ps.len() > 0 {
        lemma_painted_len(buf, ps.drop_last(), sprites, width, height);
    }
}

/// Adding a label twice is the same as adding it once: the second addition
/// reports nothing new and leaves the label set, and so its size, as the
/// first left it.
pub proof fn lemma_add_tag_twice(before: Components, once: Components, twice: Components, e: Entity, t: TagKind)
    requires
        once.tags_of(e) == before.tags_of(e).insert(t),
        twice.tags_of(e) == once.tags_of(e).insert(t),
    ensures
        once.tags_of(e).contains(t),
        twice.tags_of(e) == once.tags_of(e),
        twice.tags_of(e).len() == once.tags_of(e).len(),
{
    assert(twice.tags_of(e) =~= once.tags_of(e));
}

} // verus!
