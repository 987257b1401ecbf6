//! From the record of a tournament's fights to the rows that are written
//! for it.

use vstd::prelude::*;
use crate::api::tournament_detail::Attack;
use crate::api::tournament_detail::Battle;
use crate::api::tournament_detail::ChampionAttack;
use crate::api::tournament_detail::TournamentDetailResponse;
use crate::api::util::column_i32;
use crate::api::util::column_i64;
use crate::entity::tournament_detail_attack;
use crate::entity::tournament_detail_champion;

verus! {

/// The stance row of each fighter of tournament `id` of mode `service_id`,
/// in upstream's order.
pub open spec fn stance_rows_of(id: i64, service_id: u64, detail: TournamentDetailResponse) -> Seq<
    tournament_detail_champion::Model,
> {
    Seq::new(
        detail.champions@.len(),
        |k: int|
            tournament_detail_champion::Model {
                tournament_id: id,
                tournament_service_id: service_id as i64,
                fighter_id: detail.champions@[k].token_id as i64,
                stance: detail.champions@[k].stance as i32,
            },
    )
}

/// The row of one attack of `fighter` in `round`.
pub open spec fn attack_row_of(id: i64, service_id: u64, round: u64, fighter: u64, a: Attack)
    -> tournament_detail_attack::Model {
    tournament_detail_attack::Model {
        tournament_id: id,
        tournament_service_id: service_id as i64,
        fighter_id: fighter as i64,
        round: round as i32,
        order: a.order as i32,
        special_attack: a.special_attack,
        special_defend: a.special_defend,
        missed_hit: a.missed_hit,
        damage: a.damage as i32,
    }
}

/// The rows of one fighter's attacks in `round`, in upstream's order.
pub open spec fn fighter_attack_rows(id: i64, service_id: u64, round: u64, ca: ChampionAttack)
    -> Seq<tournament_detail_attack::Model> {
    Seq::new(ca.attack@.len(), |k: int| attack_row_of(id, service_id, round, ca.id, ca.attack@[k]))
}

/// The rows of the attacks of the given fighters in `round`, fighter after
/// fighter.
pub open spec fn round_attack_rows(id: i64, service_id: u64, round: u64, cas: Seq<ChampionAttack>)
    -> Seq<tournament_detail_attack::Model>
    decreases cas.len(),
{
    if cas.len() == 0 {
        Seq::empty()
    } else {
        round_attack_rows(id, service_id, round, cas.drop_last()) + fighter_attack_rows(
            id,
            service_id,
            round,
            cas.last(),
        )
    }
}

/// The rows of the attacks of the given rounds, round after round.
pub open spec fn attack_rows_of(id: i64, service_id: u64, battles: Seq<Battle>) -> Seq<
    tournament_detail_attack::Model,
>
    decreases battles.len(),
{
    if battles.len() == 0 {
        Seq::empty()
    } else {
        attack_rows_of(id, service_id, battles.drop_last()) + round_attack_rows(
            id,
            service_id,
            battles.last().round,
            battles.last().champions@,
        )
    }
}

/// What is written for one tournament's fights: the stance rows, merged by
/// tournament and fighter, and the attack rows, each inserted unless its
/// place in the log is taken. Where there are no attacks, none are written.
#[derive(Clone, Debug)]
pub struct DetailBatch {
    pub stances: Vec<tournament_detail_champion::Model>,
    pub attacks: Vec<tournament_detail_attack::Model>,
}

fn push_fighter_attacks(
    id: i64,
    service_id: u64,
    round: u64,
    ca: &ChampionAttack,
    rows: &mut Vec<tournament_detail_attack::Model>,
)
    ensures
        final(rows)@ == old(rows)@ + fighter_attack_rows(id, service_id, round, *ca),
{
    let ghost target = fighter_attack_rows(id, service_id, round, *ca);
    let mut k: usize = 0;
    assert(rows@ =~= old(rows)@ + target.take(0));
    while k < ca.attack.len()
        invariant
            k <= ca.attack@.len(),
            target == fighter_attack_rows(id, service_id, round, *ca),
            rows@ == old(rows)@ + target.take(k as int),
        decreases ca.attack@.len() - k,
    {
        let a = &ca.attack[k];
        rows.push(
            tournament_detail_attack::Model {
                tournament_id: id,
                tournament_service_id: column_i64(service_id),
                fighter_id: column_i64(ca.id),
                round: column_i32(round),
                order: column_i32(a.order),
                special_attack: a.special_attack,
                special_defend: a.special_defend,
                missed_hit: a.missed_hit,
                damage: column_i32(a.damage),
            },
        );
        assert(rows@ =~= old(rows)@ + target.take(k + 1));
        k += 1;
    }
    assert(target.take(ca.attack@.len() as int) =~= target);
}

fn push_round_attacks(
    id: i64,
    service_id: u64,
    battle: &Battle,
    rows: &mut Vec<tournament_detail_attack::Model>,
)
    ensures
        final(rows)@ == old(rows)@ + round_attack_rows(
            id,
            service_id,
            battle.round,
            battle.champions@,
        ),
{
    let mut n: usize = 0;
    assert(rows@ =~= old(rows)@ + round_attack_rows(
        id,
        service_id,
        battle.round,
        battle.champions@.take(0),
    ));
    while n < battle.champions.len()
        invariant
            n <= battle.champions@.len(),
            rows@ == old(rows)@ + round_attack_rows(
                id,
                service_id,
                battle.round,
                battle.champions@.take(n as int),
            ),
        decreases battle.champions@.len() - n,
    {
        proof {
            assert(battle.champions@.take(n + 1).drop_last() =~= battle.champions@.take(n as int));
        }
        let ghost prior = rows@;
        push_fighter_attacks(id, service_id, battle.round, &battle.champions[n], rows);
        assert(rows@ =~= old(rows)@ + round_attack_rows(
            id,
            service_id,
            battle.round,
            battle.champions@.take(n + 1),
        ));
        n += 1;
    }
    assert(battle.champions@.take(battle.champions@.len() as int) =~= battle.champions@);
}

/// What is written for the fights of tournament `id` of mode `service_id`.
pub fn detail_batch(id: i64, service_id: u64, detail: &TournamentDetailResponse) -> (batch:
    DetailBatch)
    ensures
        batch.stances@ == stance_rows_of(id, service_id, *detail),
        batch.attacks@ == attack_rows_of(id, service_id, detail.battles@),
{
    let mut stances: Vec<tournament_detail_champion::Model> = Vec::new();
    let mut k: usize = 0;
    while k < detail.champions.len()
        invariant
            k <= detail.champions@.len(),
            stances@ == stance_rows_of(id, service_id, *detail).take(k as int),
        decreases detail.champions@.len() - k,
    {
        let champion = &detail.champions[k];
        stances.push(
            tournament_detail_champion::Model {
                tournament_id: id,
                tournament_service_id: column_i64(service_id),
                fighter_id: column_i64(champion.token_id),
                stance: column_i32(champion.stance),
            },
        );
        assert(stances@ =~= stance_rows_of(id, service_id, *detail).take(k + 1));
        k += 1;
    }
    assert(stances@ =~= stance_rows_of(id, service_id, *detail));

    let mut attacks: Vec<tournament_detail_attack::Model> = Vec::new();
    let mut n: usize = 0;
    assert(attacks@ =~= attack_rows_of(id, service_id, detail.battles@.take(0)));
    while n < detail.battles.len()
        invariant
            n <= detail.battles@.len(),
            attacks@ == attack_rows_of(id, service_id, detail.battles@.take(n as int)),
        decreases detail.battles@.len() - n,
    {
        proof {
            assert(detail.battles@.take(n + 1).drop_last() =~= detail.battles@.take(n as int));
        }
        push_round_attacks(id, service_id, &detail.battles[n], &mut attacks);
        n += 1;
    }
    assert(detail.battles@.take(detail.battles@.len() as int) =~= detail.battles@);
    DetailBatch { stances, attacks }
}

} // verus!
