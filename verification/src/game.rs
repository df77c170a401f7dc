use vstd::prelude::*;

use crate::enemy::{Enemy, EnemyPool, enemy_advanced, enemy_pool_view, enemy_wf, pool_all_live};
use crate::fx;
use crate::fx::FX_LIM;
use crate::particle::{Particle, particle_wf};
use crate::projectile::{Projectile, contacts_nested, pool_textures_ok, projectile_wf};
use crate::rng::Rng;
use crate::shape::{Shape, shape_wf};
use crate::space::{Vec2, vec2_in_range};
use crate::texture::{TextureStore, store_wf};
use crate::turret::{Turret, turret_wf};

verus! {

use vstd::map::Map;

/// Whether a projectile sits inside the camera bounds: its hitbox, posed
/// at its transform, overlaps the camera shape.
pub open spec fn projectile_in_view(p: Projectile, bounds: Shape) -> bool {
    crate::shape::colliding(
        bounds,
        p.object.shape,
        p.object.transform.position.tx as int,
        p.object.transform.position.ty as int,
        p.object.transform.position.rot.c as int,
        p.object.transform.position.rot.s as int,
        1,
    )
}

/// What one projectile's full tick establishes between the pool states
/// before and after it: the accumulation relation of Projectile::tick,
/// and its chain of subticks sub-steps, each moving at the contact-scaled
/// speed and striking every overlapped live enemy not yet hit.
pub open spec fn proj_frame_step(
    p0: Projectile,
    p1: Projectile,
    m0: Map<slotmap::DefaultKey, Enemy>,
    m1: Map<slotmap::DefaultKey, Enemy>,
    dt: int,
) -> bool {
    &&& crate::projectile::tick_rel(p0, p1, m0, m1)
    &&& exists|chain: Seq<(Projectile, Map<slotmap::DefaultKey, Enemy>)>|
        {
            &&& chain.len() == p0.properties.subticks + 1
            &&& chain[0] == (p0, m0)
            &&& chain[chain.len() - 1] == (p1, m1)
            &&& #[trigger] crate::projectile::tick_steps(
                chain,
                fx::div_trunc_spec(dt, p0.properties.subticks as int),
            )
        }
}

/// The frame's pass over the projectile list, recorded step by step:
/// ticked[i] is what ps[i] became after its full tick, and pools[i] is
/// the enemy pool it ran against (pools[ps.len()] the pool it left).
pub open spec fn projectile_pass(
    ps: Seq<Projectile>,
    ticked: Seq<Projectile>,
    pools: Seq<Map<slotmap::DefaultKey, Enemy>>,
    dt: int,
) -> bool {
    &&& ticked.len() == ps.len()
    &&& pools.len() == ps.len() + 1
    &&& forall|i: int|
        0 <= i < ps.len() ==> proj_frame_step(
            ps[i],
            #[trigger] ticked[i],
            pools[i],
            pools[i + 1],
            dt,
        )
}

/// The survivors of a ticked projectile list: those still unspent and
/// inside the camera bounds, in their original order.
pub open spec fn kept_projectiles(ticked: Seq<Projectile>, bounds: Shape) -> Seq<Projectile>
    decreases ticked.len(),
{
    if ticked.len() == 0 {
        Seq::empty()
    } else {
        let prev = kept_projectiles(ticked.drop_last(), bounds);
        let p = ticked.last();
        if !p.should_delete_spec() && projectile_in_view(p, bounds) {
            prev.push(p)
        } else {
            prev
        }
    }
}

/// The particle pool after the frame's aging pass: every particle
/// advanced by one deterministic step, the spent ones removed, and the
/// order of the survivors kept.
pub open spec fn particles_aged(ps: Seq<crate::particle::Particle>, dt: int) -> Seq<
    crate::particle::Particle,
>
    decreases ps.len(),
{
    if ps.len() == 0 {
        Seq::empty()
    } else {
        let prev = particles_aged(ps.drop_last(), dt);
        let q = crate::particle::particle_ticked(ps.last(), dt);
        if q.time_since_creation >= q.maximum_lifetime {
            prev
        } else {
            prev.push(q)
        }
    }
}

/// The whole simulation state: the entity pools, the turret, and the
/// simulation's own pseudo-random source. Each tick runs in strict order:
/// turret fire, then every projectile's full sub-step sequence in pool
/// order, then enemy integration and pruning, then particle aging and
/// pruning. The pools are exclusively owned here and handed to one
/// projectile at a time, which is why two projectiles can never race to
/// kill the same enemy: removal happens before the next projectile runs.
pub struct Game {
    pub enemies: EnemyPool,
    pub projectiles: Vec<Projectile>,
    pub particles: Vec<Particle>,
    pub turret: Turret,
    pub rng: Rng,
}

pub open spec fn game_wf(g: Game, store: crate::texture::TextureStore) -> bool {
    &&& pool_all_live(g.enemies)
    &&& pool_textures_ok(enemy_pool_view(g.enemies), store)
    &&& forall|i: int| 0 <= i < g.projectiles@.len() ==> projectile_wf(#[trigger] g.projectiles@[i])
    &&& forall|i: int|
        0 <= i < g.projectiles@.len() ==> contacts_nested(#[trigger] g.projectiles@[i])
    &&& forall|i: int| 0 <= i < g.particles@.len() ==> particle_wf(#[trigger] g.particles@[i])
    &&& turret_wf(g.turret)
}

impl Game {
    /// A fresh simulation: empty pools and a turret firing the given
    /// kind, with its own seeded random source.
    pub fn new(kind: crate::projectile::ProjectileKind, seed: u64, store: &TextureStore) -> (r:
        Game)
        requires
            crate::projectile::projectile_kind_wf(kind),
        ensures
            game_wf(r, *store),
            r.projectiles@.len() == 0,
            r.particles@.len() == 0,
            enemy_pool_view(r.enemies) == crate::enemy::empty_enemy_map(),
    {
        Game {
            enemies: EnemyPool::new(),
            projectiles: Vec::new(),
            particles: Vec::new(),
            turret: Turret::new(kind),
            rng: Rng::new(seed),
        }
    }

    /// Spawn an enemy of the given kind; the pool stays all live.
    pub fn spawn_enemy(&mut self, position: crate::space::Pose, kind: &crate::enemy::EnemyKind, store: &TextureStore) -> (k: slotmap::DefaultKey)
        requires
            game_wf(*old(self), *store),
            enemy_pool_view(old(self).enemies).dom().finite(),
            enemy_pool_view(old(self).enemies).dom().len() < 4294967294,
            crate::space::pose_wf(position),
            crate::enemy::enemy_properties_wf(kind.properties),
            kind.properties.texture < store.entries@.len(),
        ensures
            game_wf(*final(self), *store),
            enemy_pool_view(final(self).enemies) == enemy_pool_view(old(self).enemies).insert(
                k,
                final(self).enemies@[k],
            ),
            enemy_pool_view(final(self).enemies).dom().contains(k),
            ({
                let e = enemy_pool_view(final(self).enemies)[k];
                &&& e.health == kind.properties.maximum_health
                &&& e.properties == kind.properties
                &&& e.object.transform.position == position
                &&& e.object.transform.linear_velocity == (crate::space::Vec2 { x: 0, y: 0 })
                &&& e.object.transform.angular_velocity == kind.properties.angular_velocity
                &&& e.direction == position.rot
                &&& e.time_since_hit == FX_LIM
            }),
            final(self).projectiles == old(self).projectiles,
            final(self).particles == old(self).particles,
            final(self).turret == old(self).turret,
    {
        let e: Enemy = Enemy::new(position, kind);
        let k: slotmap::DefaultKey = self.enemies.insert(e);
        proof {
            assert forall|k2: slotmap::DefaultKey|
                #![trigger enemy_pool_view(self.enemies).dom().contains(k2)]
                enemy_pool_view(self.enemies).dom().contains(k2) implies enemy_wf(
                enemy_pool_view(self.enemies)[k2],
            ) && enemy_pool_view(self.enemies)[k2].health > 0 by {
                if k2 != k {
                    assert(enemy_pool_view(old(self).enemies).dom().contains(k2));
                }
            }
            assert forall|k2: slotmap::DefaultKey|
                #![trigger enemy_pool_view(self.enemies).dom().contains(k2)]
                enemy_pool_view(self.enemies).dom().contains(k2) implies enemy_pool_view(
                self.enemies,
            )[k2].properties.texture < store.entries@.len() by {
                if k2 != k {
                    assert(enemy_pool_view(old(self).enemies).dom().contains(k2));
                }
            }
        }
        k
    }

    /// Feed the sampled fire input to the turret's buffer.
    pub fn tick_input(&mut self, dt: i64, pressed: bool)
        requires
            turret_wf(old(self).turret),
            0 <= dt <= FX_LIM,
        ensures
            turret_wf(final(self).turret),
            final(self).turret == (crate::turret::Turret {
                input: crate::turret::input_ticked(old(self).turret.input, dt as int, pressed),
                ..old(self).turret
            }),
            final(self).enemies == old(self).enemies,
            final(self).projectiles == old(self).projectiles,
            final(self).particles == old(self).particles,
            final(self).rng == old(self).rng,
    {
        self.turret.input.tick(dt, pressed);
    }

    /// One full simulation tick, in the fixed order: turret aim and fire,
    /// each projectile's full sub-step sequence against the enemy pool in
    /// pool order (spent or escaped projectiles are dropped), enemy
    /// integration, particle aging and pruning. The phase witnesses in
    /// the ensures pin each stage: the list the projectile pass ran over,
    /// the pool it left behind, and the particle pool the aging pass ran
    /// over.
    #[verifier::rlimit(100)]
    pub fn tick(
        &mut self,
        mouse_position: Vec2,
        camera_bounds: Shape,
        store: &mut TextureStore,
        dt: i64,
    )
        requires
            game_wf(*old(self), *old(store)),
            vec2_in_range(mouse_position),
            shape_wf(camera_bounds),
            store_wf(*old(store)),
            0 <= dt <= FX_LIM,
        ensures
            game_wf(*final(self), *final(store)),
            store_wf(*final(store)),
            final(store).entries@.len() >= old(store).entries@.len(),
            forall|i: int|
                0 <= i < old(store).entries@.len() ==> final(store).entries@[i] == old(
                    store,
                ).entries@[i],
            forall|k: slotmap::DefaultKey|
                #![trigger enemy_pool_view(final(self).enemies).dom().contains(k)]
                enemy_pool_view(final(self).enemies).dom().contains(k) ==> enemy_pool_view(
                    old(self).enemies,
                ).dom().contains(k),
            // the turret fires exactly when a buffered shot's cooldown
            // has elapsed, and its timers advance as Turret::tick states
            final(self).turret.projectile_kind == old(self).turret.projectile_kind,
            final(self).turret.shape == old(self).turret.shape,
            final(self).turret.position.tx == old(self).turret.position.tx,
            final(self).turret.position.ty == old(self).turret.position.ty,
            final(self).turret.time_since_shoot == if crate::turret::turret_fires(
                old(self).turret,
                dt as int,
            ) {
                0int
            } else {
                fx::cap_time_spec(old(self).turret.time_since_shoot + dt)
            },
            final(self).turret.input == if crate::turret::turret_fires(
                old(self).turret,
                dt as int,
            ) {
                crate::turret::PlayerInput { shoot: false, ..old(self).turret.input }
            } else {
                old(self).turret.input
            },
            final(self).turret.time_since_recharged == if final(self).turret.time_since_shoot
                >= final(self).turret.projectile_kind.shoot_cooldown {
                fx::cap_time_spec(old(self).turret.time_since_recharged + dt)
            } else {
                0int
            },
            ({
                let offset = Vec2 {
                    x: fx::add_fx_spec(
                        mouse_position.x as int,
                        -old(self).turret.position.tx as int,
                    ) as i64,
                    y: fx::add_fx_spec(
                        mouse_position.y as int,
                        -old(self).turret.position.ty as int,
                    ) as i64,
                };
                let aimed = crate::turret::aim_spec(old(self).turret.position.rot, offset);
                final(self).turret.position.rot == if crate::turret::turret_fires(
                    old(self).turret,
                    dt as int,
                ) {
                    aimed
                } else {
                    crate::turret::ease_spec(old(self).turret.position.rot, aimed, dt as int)
                }
            }),
            // the frame's phases in order: the projectile pass ran over
            // the entry list plus the fired shot, each projectile ticked
            // against the running pool and kept iff unspent and in view;
            // every enemy the pass left alive then advanced one enemy
            // tick; and the grown particle pool aged with spent particles
            // dropped
            exists|
                handed: Seq<Projectile>,
                ticked: Seq<Projectile>,
                pools: Seq<Map<slotmap::DefaultKey, Enemy>>,
                grown: Seq<Particle>,
            |
                #![trigger projectile_pass(handed, ticked, pools, dt as int),
                    particles_aged(grown, dt as int)]
                {
                    &&& handed.len() == old(self).projectiles@.len()
                        + if crate::turret::turret_fires(old(self).turret, dt as int) {
                        1int
                    } else {
                        0int
                    }
                    &&& forall|i: int|
                        0 <= i < old(self).projectiles@.len() ==> handed[i] == old(
                            self,
                        ).projectiles@[i]
                    &&& (crate::turret::turret_fires(old(self).turret, dt as int) ==> ({
                        let spawned = handed[handed.len() - 1];
                        &&& spawned.properties == old(self).turret.projectile_kind.properties
                        &&& spawned.direction == final(self).turret.position.rot
                        &&& spawned.object.transform.position == crate::turret::barrel_tip(
                            final(self).turret,
                        )
                        &&& spawned.enemies_hit@.len() == 0
                        &&& !spawned.should_delete_spec()
                    }))
                    &&& pools[0] == enemy_pool_view(old(self).enemies)
                    &&& projectile_pass(handed, ticked, pools, dt as int)
                    &&& final(self).projectiles@ == kept_projectiles(ticked, camera_bounds)
                    &&& enemy_pool_view(final(self).enemies).dom() =~= pools[pools.len()
                        - 1].dom()
                    &&& forall|k: slotmap::DefaultKey|
                        #![trigger pools[pools.len() - 1].dom().contains(k)]
                        pools[pools.len() - 1].dom().contains(k) ==> enemy_advanced(
                            pools[pools.len() - 1][k],
                            enemy_pool_view(final(self).enemies)[k],
                            dt as int,
                        )
                    &&& grown.len() >= old(self).particles@.len()
                    &&& forall|i: int|
                        0 <= i < old(self).particles@.len() ==> grown[i] == old(
                            self,
                        ).particles@[i]
                    &&& final(self).particles@ == particles_aged(grown, dt as int)
                },
    {
        // Turret: aim and fire.
        let mut projectiles: Vec<Projectile> = Vec::new();
        core::mem::swap(&mut projectiles, &mut self.projectiles);
        self.turret.tick(mouse_position, &mut projectiles, &mut self.rng, dt);
        let ghost turret_mid = self.turret;
        let ghost all = projectiles@;
        proof {
            assert forall|i: int| 0 <= i < projectiles@.len() implies contacts_nested(
                #[trigger] projectiles@[i],
            ) by {
                if i < old(self).projectiles@.len() {
                    assert(projectiles@[i] == old(self).projectiles@[i]);
                } else {
                    assert(projectiles@[i].enemies_intersecting@.len() == 0);
                }
            }
        }

        // Projectiles: each runs its full sub-step sequence against the
        // pool; spent or out-of-view projectiles are dropped.
        let mut kept: Vec<Projectile> = Vec::new();
        let ghost m_in = enemy_pool_view(self.enemies);
        let ghost mut done: int = 0;
        let ghost mut ticked: Seq<Projectile> = Seq::empty();
        let ghost mut pools: Seq<Map<slotmap::DefaultKey, Enemy>> = Seq::empty().push(
            enemy_pool_view(self.enemies),
        );
        proof {
            assert(all.skip(0) =~= all);
            assert(kept@ == kept_projectiles(ticked, camera_bounds));
        }
        loop
            invariant
                pool_all_live(self.enemies),
                pool_textures_ok(enemy_pool_view(self.enemies), *store),
                store_wf(*store),
                store.entries@.len() >= old(store).entries@.len(),
                forall|i: int|
                    0 <= i < old(store).entries@.len() ==> store.entries@[i] == old(
                        store,
                    ).entries@[i],
                forall|i: int|
                    0 <= i < projectiles@.len() ==> projectile_wf(#[trigger] projectiles@[i]),
                forall|i: int|
                    0 <= i < projectiles@.len() ==> contacts_nested(#[trigger] projectiles@[i]),
                forall|i: int| 0 <= i < kept@.len() ==> projectile_wf(#[trigger] kept@[i]),
                forall|i: int| 0 <= i < kept@.len() ==> contacts_nested(#[trigger] kept@[i]),
                forall|i: int|
                    0 <= i < self.particles@.len() ==> particle_wf(#[trigger] self.particles@[i]),
                self.particles@.len() >= old(self).particles@.len(),
                forall|i: int|
                    0 <= i < old(self).particles@.len() ==> self.particles@[i] == old(
                        self,
                    ).particles@[i],
                forall|k: slotmap::DefaultKey|
                    #![trigger enemy_pool_view(self.enemies).dom().contains(k)]
                    enemy_pool_view(self.enemies).dom().contains(k) ==> m_in.dom().contains(k),
                self.turret == turret_mid,
                turret_wf(self.turret),
                m_in == enemy_pool_view(old(self).enemies),
                shape_wf(camera_bounds),
                0 <= dt <= FX_LIM,
                0 <= done <= all.len(),
                projectiles@ == all.skip(done),
                ticked.len() == done,
                pools.len() == done + 1,
                pools[0] == m_in,
                pools[pools.len() - 1] == enemy_pool_view(self.enemies),
                forall|i2: int|
                    0 <= i2 < done ==> proj_frame_step(
                        all[i2],
                        #[trigger] ticked[i2],
                        pools[i2],
                        pools[i2 + 1],
                        dt as int,
                    ),
                kept@ == kept_projectiles(ticked, camera_bounds),
            ensures
                projectiles@.len() == 0,
            decreases projectiles@.len(),
        {
            if projectiles.len() == 0 {
                break;
            }
            let ghost mview = enemy_pool_view(self.enemies);
            let ghost kpre = kept@;
            let mut p: Projectile = projectiles.remove(0);
            let ghost p0 = p;
            proof {
                assert(p0 == all[done]) by {
                    assert(all.skip(done)[0] == all[done]);
                };
                assert(projectiles@ =~= all.skip(done + 1)) by {
                    assert forall|i2: int|
                        0 <= i2 < projectiles@.len() implies projectiles@[i2] == all.skip(
                        done + 1,
                    )[i2] by {
                        assert(all.skip(done).remove(0)[i2] == all.skip(done)[i2 + 1]);
                    };
                };
            }
            p.tick(&mut self.enemies, &mut self.particles, store, &mut self.rng, dt);
            let spent: bool = p.should_delete();
            let in_view: bool = camera_bounds.is_colliding(
                &p.object.shape,
                p.object.transform.position,
            );
            if !spent && in_view {
                kept.push(p);
            }
            proof {
                done = done + 1;
                let tpre = ticked;
                let ppre = pools;
                ticked = ticked.push(p);
                pools = pools.push(enemy_pool_view(self.enemies));
                assert(proj_frame_step(p0, p, mview, enemy_pool_view(self.enemies), dt as int));
                assert forall|i2: int| 0 <= i2 < done implies proj_frame_step(
                    all[i2],
                    #[trigger] ticked[i2],
                    pools[i2],
                    pools[i2 + 1],
                    dt as int,
                ) by {
                    if i2 < done - 1 {
                        assert(ticked[i2] == tpre[i2]);
                        assert(pools[i2] == ppre[i2]);
                        assert(pools[i2 + 1] == ppre[i2 + 1]);
                    } else {
                        assert(ticked[i2] == p);
                        assert(all[i2] == p0);
                        assert(pools[i2] == ppre[ppre.len() - 1]);
                        assert(pools[i2 + 1] == enemy_pool_view(self.enemies));
                    }
                }
                assert(ticked.drop_last() =~= tpre);
                assert(ticked.drop_last() == tpre);
                assert(ticked.last() == p);
                assert(kept@ == (if !p.should_delete_spec() && projectile_in_view(
                    p,
                    camera_bounds,
                ) {
                    kpre.push(p)
                } else {
                    kpre
                }));
                assert(kept@ == kept_projectiles(ticked, camera_bounds));
            }
        }
        let ghost m_mid = enemy_pool_view(self.enemies);
        proof {
            assert(done == all.len());
            assert(m_mid == pools[pools.len() - 1]);
            assert(projectile_pass(all, ticked, pools, dt as int));
        }
        self.projectiles = kept;
        let ghost projs_final = self.projectiles@;
        let ghost parts_mid = self.particles@;

        // Enemies: integrate every survivor of the strikes; lethal hits
        // already removed their enemies, so the pool holds only live ones.
        let keys: Vec<slotmap::DefaultKey> = self.enemies.keys();
        let mut i: usize = 0;
        while i < keys.len()
            invariant
                i <= keys@.len(),
                keys@.no_duplicates(),
                forall|j: int| 0 <= j < keys@.len() ==> m_mid.dom().contains(#[trigger] keys@[j]),
                forall|k: slotmap::DefaultKey|
                    m_mid.dom().contains(k) ==> #[trigger] keys@.contains(k),
                pool_all_live(self.enemies),
                pool_textures_ok(enemy_pool_view(self.enemies), *store),
                enemy_pool_view(self.enemies).dom() =~= m_mid.dom(),
                forall|j: int|
                    0 <= j < i ==> enemy_advanced(
                        m_mid[#[trigger] keys@[j]],
                        enemy_pool_view(self.enemies)[keys@[j]],
                        dt as int,
                    ),
                forall|j: int|
                    i <= j < keys@.len() ==> enemy_pool_view(self.enemies)[#[trigger] keys@[j]]
                        == m_mid[keys@[j]],
                forall|k: slotmap::DefaultKey|
                    #![trigger enemy_pool_view(self.enemies).dom().contains(k)]
                    enemy_pool_view(self.enemies).dom().contains(k) ==> enemy_pool_view(
                        old(self).enemies,
                    ).dom().contains(k),
                forall|i2: int|
                    0 <= i2 < self.projectiles@.len() ==> projectile_wf(
                        #[trigger] self.projectiles@[i2],
                    ),
                forall|i2: int|
                    0 <= i2 < self.projectiles@.len() ==> contacts_nested(
                        #[trigger] self.projectiles@[i2],
                    ),
                self.projectiles@ == projs_final,
                self.particles@ == parts_mid,
                forall|i2: int|
                    0 <= i2 < self.particles@.len() ==> particle_wf(
                        #[trigger] self.particles@[i2],
                    ),
                self.turret == turret_mid,
                turret_wf(self.turret),
                0 <= dt <= FX_LIM,
            decreases keys@.len() - i,
        {
            let k: slotmap::DefaultKey = keys[i];
            let found: Option<Enemy> = self.enemies.get(k);
            match found {
                Some(e) => {
                    let ghost vpre = enemy_pool_view(self.enemies);
                    proof {
                        assert(vpre[k] == m_mid[k]) by {
                            assert(keys@[i as int] == k);
                        };
                    }
                    let mut moved: Enemy = e;
                    moved.tick(dt, &mut self.rng);
                    if moved.health == 0 {
                        proof {
                            // a lethal strike already removed its enemy,
                            // so the pool never holds a dead one here
                            assert(false);
                        }
                        self.enemies.remove(k);
                    } else {
                        self.enemies.set(k, moved);
                    }
                    proof {
                        let vpost = enemy_pool_view(self.enemies);
                        assert(vpost == vpre.insert(k, moved));
                        assert(vpost.dom() =~= m_mid.dom());
                        assert forall|j: int| 0 <= j < i + 1 implies enemy_advanced(
                            m_mid[#[trigger] keys@[j]],
                            vpost[keys@[j]],
                            dt as int,
                        ) by {
                            if j == i {
                                assert(vpost[k] == moved);
                                assert(enemy_advanced(m_mid[k], moved, dt as int));
                            } else {
                                assert(keys@[j] != k);
                                assert(vpost[keys@[j]] == vpre[keys@[j]]);
                            }
                        }
                        assert forall|j: int|
                            i + 1 <= j < keys@.len() implies vpost[#[trigger] keys@[j]]
                            == m_mid[keys@[j]] by {
                            assert(keys@[j] != k);
                        }
                    }
                },
                None => {
                    proof {
                        assert(m_mid.dom().contains(keys@[i as int]));
                        assert(false);
                    }
                },
            }
            i = i + 1;
        }
        let ghost enemies_done = self.enemies;
        proof {
            assert forall|k: slotmap::DefaultKey|
                #![trigger m_mid.dom().contains(k)]
                m_mid.dom().contains(k) implies enemy_advanced(
                m_mid[k],
                enemy_pool_view(self.enemies)[k],
                dt as int,
            ) by {
                assert(keys@.contains(k));
                let j = choose|j: int| 0 <= j < keys@.len() && keys@[j] == k;
            }
        }

        // Particles: age every particle one step and prune the spent ones.
        let ghost grown = self.particles@;
        let mut alive: Vec<Particle> = Vec::new();
        let ghost mut aged: int = 0;
        proof {
            assert(grown.take(0) =~= Seq::<Particle>::empty());
            assert(grown.skip(0) =~= grown);
            assert(alive@ == particles_aged(grown.take(0), dt as int));
        }
        loop
            invariant
                forall|i2: int|
                    0 <= i2 < self.particles@.len() ==> particle_wf(
                        #[trigger] self.particles@[i2],
                    ),
                forall|i2: int| 0 <= i2 < alive@.len() ==> particle_wf(#[trigger] alive@[i2]),
                forall|i2: int| 0 <= i2 < grown.len() ==> particle_wf(#[trigger] grown[i2]),
                0 <= aged <= grown.len(),
                self.particles@ == grown.skip(aged),
                alive@ == particles_aged(grown.take(aged), dt as int),
                self.enemies == enemies_done,
                self.projectiles@ == projs_final,
                forall|i2: int|
                    0 <= i2 < self.projectiles@.len() ==> projectile_wf(
                        #[trigger] self.projectiles@[i2],
                    ),
                forall|i2: int|
                    0 <= i2 < self.projectiles@.len() ==> contacts_nested(
                        #[trigger] self.projectiles@[i2],
                    ),
                self.turret == turret_mid,
                turret_wf(self.turret),
                0 <= dt <= FX_LIM,
            ensures
                self.particles@.len() == 0,
            decreases self.particles@.len(),
        {
            if self.particles.len() == 0 {
                break;
            }
            let ghost apre = alive@;
            let mut q: Particle = self.particles.remove(0);
            let ghost q0 = q;
            proof {
                assert(q0 == grown[aged]) by {
                    assert(grown.skip(aged)[0] == grown[aged]);
                };
                assert(self.particles@ =~= grown.skip(aged + 1)) by {
                    assert forall|i2: int|
                        0 <= i2 < self.particles@.len() implies self.particles@[i2] == grown.skip(
                        aged + 1,
                    )[i2] by {
                        assert(grown.skip(aged).remove(0)[i2] == grown.skip(aged)[i2 + 1]);
                    };
                };
            }
            q.tick(dt);
            if !q.should_delete() {
                alive.push(q);
            }
            proof {
                aged = aged + 1;
                assert(grown.take(aged).drop_last() =~= grown.take(aged - 1));
                assert(grown.take(aged).drop_last() == grown.take(aged - 1));
                assert(grown.take(aged).last() == q0);
                assert(q == crate::particle::particle_ticked(q0, dt as int));
                assert(alive@ == particles_aged(grown.take(aged), dt as int));
            }
        }
        proof {
            assert(aged == grown.len());
            assert(grown.take(aged) =~= grown);
            assert(alive@ == particles_aged(grown, dt as int));
        }
        self.particles = alive;
        proof {
            // the phase witnesses of the ensures: the projectile list the
            // pass ran over, its step records, and the grown particle pool
            assert(projectile_pass(all, ticked, pools, dt as int));
            assert(self.projectiles@ == kept_projectiles(ticked, camera_bounds));
            assert(enemy_pool_view(self.enemies).dom() =~= pools[pools.len() - 1].dom());
            assert forall|k: slotmap::DefaultKey|
                #![trigger pools[pools.len() - 1].dom().contains(k)]
                pools[pools.len() - 1].dom().contains(k) implies enemy_advanced(
                pools[pools.len() - 1][k],
                enemy_pool_view(self.enemies)[k],
                dt as int,
            ) by {
                assert(m_mid.dom().contains(k));
            }
            assert(self.particles@ == particles_aged(grown, dt as int));
            assert(grown == parts_mid);
        }
    }
}

} // verus!
