//! The order of the kinds is the order of their names.

use crate::solar_data::value::DataValue;
use vstd::prelude::*;

verus! {

/// Whether two texts agree before the place `k` and the first is less there:
/// it ends there and the second does not, or its character there is the
/// smaller one.
pub open spec fn less_at(a: Seq<char>, b: Seq<char>, k: int) -> bool {
    &&& 0 <= k <= a.len()
    &&& k <= b.len()
    &&& forall|j: int| 0 <= j < k ==> a[j] == b[j]
    &&& (k == a.len() && k < b.len()) || (k < a.len() && k < b.len() && (a[k] as u32) < (
    b[k] as u32))
}

/// Whether the first text comes before the second in lexicographic order.
pub open spec fn lex_less(a: Seq<char>, b: Seq<char>) -> bool {
    exists|k: int| less_at(a, b, k)
}

/// The name of the tag at a place in the order of the tags.
pub open spec fn name_at(rank: int) -> Seq<char> {
    if rank == 0 {
        "AlarmCode"@
    }     else if rank == 1 {
        "AmpHoursSinceMidnight"@
    }     else if rank == 2 {
        "BatteryAmps"@
    }     else if rank == 3 {
        "BatteryVoltage"@
    }     else if rank == 4 {
        "CellVoltage"@
    }     else if rank == 5 {
        "ControllerAmps"@
    }     else if rank == 6 {
        "ControllerBatteryVoltage"@
    }     else if rank == 7 {
        "ControllerPanelVoltage"@
    }     else if rank == 8 {
        "ControllerTemperatureF"@
    }     else if rank == 9 {
        "LoadWatts"@
    }     else if rank == 10 {
        "SolarWatts"@
    }     else if rank == 11 {
        "StateOfChargePercent"@
    }     else if rank == 12 {
        "StatisticsCellVoltageHigh"@
    }     else if rank == 13 {
        "StatisticsCellVoltageLow"@
    }     else if rank == 14 {
        "StatisticsLoadWatts"@
    }     else if rank == 15 {
        "StatisticsSolarWatts"@
    }     else if rank == 16 {
        "StatisticsStateOfChargePercentHigh"@
    } else {
        "StatisticsStateOfChargePercentLow"@
    }
}

/// The lexicographic order is transitive.
pub proof fn lemma_lex_less_transitive(a: Seq<char>, b: Seq<char>, c: Seq<char>)
    requires
        lex_less(a, b),
        lex_less(b, c),
    ensures
        lex_less(a, c),
{
    let k1 = choose|k: int| less_at(a, b, k);
    let k2 = choose|k: int| less_at(b, c, k);
    if k1 <= k2 {
        assert(less_at(a, c, k1));
    } else {
        assert(less_at(a, c, k2));
    }
}

/// No text comes before itself, and of two texts at most one comes before
/// the other.
pub proof fn lemma_lex_less_asymmetric(a: Seq<char>, b: Seq<char>)
    requires
        lex_less(a, b),
    ensures
        !lex_less(b, a),
        a != b,
{
    let k1 = choose|k: int| less_at(a, b, k);
    if lex_less(b, a) {
        let k2 = choose|k: int| less_at(b, a, k);
        if k1 < k2 {
            assert(b[k1] == a[k1]);
        } else if k2 < k1 {
            assert(a[k2] == b[k2]);
        }
    }
    if a == b {
        assert(k1 < b.len());
    }
}

proof fn lemma_name_0_before_1()
    ensures
        lex_less(name_at(0), name_at(1)),
{
    reveal_strlit("AlarmCode");
    reveal_strlit("AmpHoursSinceMidnight");
    assert(less_at("AlarmCode"@, "AmpHoursSinceMidnight"@, 1));
}

proof fn lemma_name_1_before_2()
    ensures
        lex_less(name_at(1), name_at(2)),
{
    reveal_strlit("AmpHoursSinceMidnight");
    reveal_strlit("BatteryAmps");
    assert(less_at("AmpHoursSinceMidnight"@, "BatteryAmps"@, 0));
}

proof fn lemma_name_2_before_3()
    ensures
        lex_less(name_at(2), name_at(3)),
{
    reveal_strlit("BatteryAmps");
    reveal_strlit("BatteryVoltage");
    assert(less_at("BatteryAmps"@, "BatteryVoltage"@, 7));
}

proof fn lemma_name_3_before_4()
    ensures
        lex_less(name_at(3), name_at(4)),
{
    reveal_strlit("BatteryVoltage");
    reveal_strlit("CellVoltage");
    assert(less_at("BatteryVoltage"@, "CellVoltage"@, 0));
}

proof fn lemma_name_4_before_5()
    ensures
        lex_less(name_at(4), name_at(5)),
{
    reveal_strlit("CellVoltage");
    reveal_strlit("ControllerAmps");
    assert(less_at("CellVoltage"@, "ControllerAmps"@, 1));
}

proof fn lemma_name_5_before_6()
    ensures
        lex_less(name_at(5), name_at(6)),
{
    reveal_strlit("ControllerAmps");
    reveal_strlit("ControllerBatteryVoltage");
    assert(less_at("ControllerAmps"@, "ControllerBatteryVoltage"@, 10));
}

proof fn lemma_name_6_before_7()
    ensures
        lex_less(name_at(6), name_at(7)),
{
    reveal_strlit("ControllerBatteryVoltage");
    reveal_strlit("ControllerPanelVoltage");
    assert(less_at("ControllerBatteryVoltage"@, "ControllerPanelVoltage"@, 10));
}

proof fn lemma_name_7_before_8()
    ensures
        lex_less(name_at(7), name_at(8)),
{
    reveal_strlit("ControllerPanelVoltage");
    reveal_strlit("ControllerTemperatureF");
    assert(less_at("ControllerPanelVoltage"@, "ControllerTemperatureF"@, 10));
}

proof fn lemma_name_8_before_9()
    ensures
        lex_less(name_at(8), name_at(9)),
{
    reveal_strlit("ControllerTemperatureF");
    reveal_strlit("LoadWatts");
    assert(less_at("ControllerTemperatureF"@, "LoadWatts"@, 0));
}

proof fn lemma_name_9_before_10()
    ensures
        lex_less(name_at(9), name_at(10)),
{
    reveal_strlit("LoadWatts");
    reveal_strlit("SolarWatts");
    assert(less_at("LoadWatts"@, "SolarWatts"@, 0));
}

proof fn lemma_name_10_before_11()
    ensures
        lex_less(name_at(10), name_at(11)),
{
    reveal_strlit("SolarWatts");
    reveal_strlit("StateOfChargePercent");
    assert(less_at("SolarWatts"@, "StateOfChargePercent"@, 1));
}

proof fn lemma_name_11_before_12()
    ensures
        lex_less(name_at(11), name_at(12)),
{
    reveal_strlit("StateOfChargePercent");
    reveal_strlit("StatisticsCellVoltageHigh");
    assert(less_at("StateOfChargePercent"@, "StatisticsCellVoltageHigh"@, 4));
}

proof fn lemma_name_12_before_13()
    ensures
        lex_less(name_at(12), name_at(13)),
{
    reveal_strlit("StatisticsCellVoltageHigh");
    reveal_strlit("StatisticsCellVoltageLow");
    assert(less_at("StatisticsCellVoltageHigh"@, "StatisticsCellVoltageLow"@, 21));
}

proof fn lemma_name_13_before_14()
    ensures
        lex_less(name_at(13), name_at(14)),
{
    reveal_strlit("StatisticsCellVoltageLow");
    reveal_strlit("StatisticsLoadWatts");
    assert(less_at("StatisticsCellVoltageLow"@, "StatisticsLoadWatts"@, 10));
}

proof fn lemma_name_14_before_15()
    ensures
        lex_less(name_at(14), name_at(15)),
{
    reveal_strlit("StatisticsLoadWatts");
    reveal_strlit("StatisticsSolarWatts");
    assert(less_at("StatisticsLoadWatts"@, "StatisticsSolarWatts"@, 10));
}

proof fn lemma_name_15_before_16()
    ensures
        lex_less(name_at(15), name_at(16)),
{
    reveal_strlit("StatisticsSolarWatts");
    reveal_strlit("StatisticsStateOfChargePercentHigh");
    assert(less_at("StatisticsSolarWatts"@, "StatisticsStateOfChargePercentHigh"@, 11));
}

proof fn lemma_name_16_before_17()
    ensures
        lex_less(name_at(16), name_at(17)),
{
    reveal_strlit("StatisticsStateOfChargePercentHigh");
    reveal_strlit("StatisticsStateOfChargePercentLow");
    assert(less_at("StatisticsStateOfChargePercentHigh"@, "StatisticsStateOfChargePercentLow"@, 30));
}

/// Each name comes before the next.
proof fn lemma_name_before_next(rank: int)
    requires
        0 <= rank < 17,
    ensures
        lex_less(name_at(rank), name_at(rank + 1)),
{
    if rank == 0 {
        lemma_name_0_before_1();
    }     else if rank == 1 {
        lemma_name_1_before_2();
    }     else if rank == 2 {
        lemma_name_2_before_3();
    }     else if rank == 3 {
        lemma_name_3_before_4();
    }     else if rank == 4 {
        lemma_name_4_before_5();
    }     else if rank == 5 {
        lemma_name_5_before_6();
    }     else if rank == 6 {
        lemma_name_6_before_7();
    }     else if rank == 7 {
        lemma_name_7_before_8();
    }     else if rank == 8 {
        lemma_name_8_before_9();
    }     else if rank == 9 {
        lemma_name_9_before_10();
    }     else if rank == 10 {
        lemma_name_10_before_11();
    }     else if rank == 11 {
        lemma_name_11_before_12();
    }     else if rank == 12 {
        lemma_name_12_before_13();
    }     else if rank == 13 {
        lemma_name_13_before_14();
    }     else if rank == 14 {
        lemma_name_14_before_15();
    }     else if rank == 15 {
        lemma_name_15_before_16();
    }     else if rank == 16 {
        lemma_name_16_before_17();
    }
}

/// The names are in lexicographic order.
pub proof fn lemma_names_ascend(low: int, high: int)
    requires
        0 <= low < high <= 17,
    ensures
        lex_less(name_at(low), name_at(high)),
    decreases high - low,
{
    lemma_name_before_next(high - 1);
    if low < high - 1 {
        lemma_names_ascend(low, high - 1);
        lemma_lex_less_transitive(name_at(low), name_at(high - 1), name_at(high));
    }
}

/// Measurements are ordered by the names of their tags, in lexicographic
/// order, and under one tag by the cell or controller: one kind has the
/// smaller key just when its tag's name comes first, or the names are the
/// same and its cell or controller has the smaller number.
pub proof fn law_kinds_ordered_by_name(a: DataValue, b: DataValue)
    ensures
        a.tag_name_spec() == name_at(a.tag_rank()),
        0 <= a.tag_rank() <= 17,
        0 <= a.sub_id() < 65_536,
        a.kind_key() < b.kind_key() <==> lex_less(a.tag_name_spec(), b.tag_name_spec()) || (
        a.tag_name_spec() == b.tag_name_spec() && a.sub_id() < b.sub_id()),
        a.tag_name_spec() == b.tag_name_spec() <==> a.tag_rank() == b.tag_rank(),
{
    let i = a.tag_rank();
    let j = b.tag_rank();
    assert(b.tag_name_spec() == name_at(j));
    if i < j {
        lemma_names_ascend(i, j);
        lemma_lex_less_asymmetric(name_at(i), name_at(j));
    } else if j < i {
        lemma_names_ascend(j, i);
        lemma_lex_less_asymmetric(name_at(j), name_at(i));
    } else {
        if lex_less(name_at(i), name_at(i)) {
            lemma_lex_less_asymmetric(name_at(i), name_at(i));
        }
    }
}

} // verus!
