//! The opcodes of AML, as the ACPI specification assigns them: each construct parses only
//! where its own opcode stands.
use vstd::prelude::*;
use crate::aml_term::{def_alias_at, def_name_at, def_scope_at};
use crate::aml_named::{def_bank_field_at, access_field_at, def_create_bit_field_at, def_create_byte_field_at, def_create_dword_field_at, def_create_qword_field_at, def_create_word_field_at, def_create_field_at, def_data_region_at, def_device_at, def_event_at, def_external_at, def_field_at, def_index_field_at, def_method_at, def_mutex_at, def_op_region_at, def_power_res_at, def_thermal_zone_at, extended_access_field_at};
use crate::aml_statement::{def_break_at, def_break_point_at, def_continue_at, def_noop_at, def_fatal_at, def_if_else_at, def_notify_at, def_release_at, def_reset_at, def_return_at, def_signal_at, def_sleep_at, def_stall_at, def_while_at};
use crate::aml_expr::{def_acquire_at, def_add_at, def_and_at, def_concat_at, def_concat_res_at, def_multiply_at, def_nand_at, def_nor_at, def_subtract_at, def_xor_at, def_find_set_left_bit_at, def_find_set_right_bit_at, def_not_at, def_or_at, def_to_bcd_at, def_to_buffer_at, def_to_decimal_string_at, def_to_hex_string_at, def_to_integer_at, def_l_and_at, def_l_equal_at, def_l_greater_at, def_l_greater_equal_at, def_l_less_at, def_l_less_equal_at, def_l_not_equal_at, def_l_or_at, def_buffer_at, def_cond_ref_of_at, def_copy_obj_at, def_decrement_at, def_deref_of_at, def_divide_at, def_from_bcd_at, def_increment_at, def_index_at, def_l_not_at, def_load_at, def_load_table_at, def_match_at, def_mid_at, def_mod_at, def_obj_type_at, def_pkg_at, def_var_pkg_at, def_ref_of_at, def_shift_left_at, def_shift_right_at, def_size_of_at, def_store_at, def_timer_at, def_to_string_at, def_wait_at};

verus! {

/// The opcodes of the namespace modifiers: a construct that parses at `p` begins there with its
/// opcode, one byte, or the extended-opcode prefix 0x5b and a second byte.
pub proof fn lemma_term_opcodes(s: Seq<u8>, p: int)
    ensures
        def_alias_at(s, p) is Ok ==> p + 1 <= s.len() && s[p] == 0x06,
        def_name_at(s, p) is Ok ==> p + 1 <= s.len() && s[p] == 0x08,
        def_scope_at(s, p) is Ok ==> p + 1 <= s.len() && s[p] == 0x10,
{
    reveal(def_alias_at);
    reveal(def_name_at);
    reveal_with_fuel(def_scope_at, 1);
}

/// The opcodes of the named objects: a construct that parses at `p` begins there with its
/// opcode, one byte, or the extended-opcode prefix 0x5b and a second byte.
pub proof fn lemma_named_opcodes(s: Seq<u8>, p: int)
    ensures
        def_bank_field_at(s, p) is Ok ==> p + 2 <= s.len() && s[p] == 0x5b && s[p + 1] == 0x87,
        access_field_at(s, p) is Ok ==> p + 1 <= s.len() && s[p] == 0x01,
        def_create_bit_field_at(s, p) is Ok ==> p + 1 <= s.len() && s[p] == 0x8d,
        def_create_byte_field_at(s, p) is Ok ==> p + 1 <= s.len() && s[p] == 0x8c,
        def_create_dword_field_at(s, p) is Ok ==> p + 1 <= s.len() && s[p] == 0x8a,
        def_create_qword_field_at(s, p) is Ok ==> p + 1 <= s.len() && s[p] == 0x8f,
        def_create_word_field_at(s, p) is Ok ==> p + 1 <= s.len() && s[p] == 0x8b,
        def_create_field_at(s, p) is Ok ==> p + 2 <= s.len() && s[p] == 0x5b && s[p + 1] == 0x13,
        def_data_region_at(s, p) is Ok ==> p + 2 <= s.len() && s[p] == 0x5b && s[p + 1] == 0x88,
        def_device_at(s, p) is Ok ==> p + 2 <= s.len() && s[p] == 0x5b && s[p + 1] == 0x82,
        def_event_at(s, p) is Ok ==> p + 2 <= s.len() && s[p] == 0x5b && s[p + 1] == 0x02,
        def_external_at(s, p) is Ok ==> p + 1 <= s.len() && s[p] == 0x15,
        def_field_at(s, p) is Ok ==> p + 2 <= s.len() && s[p] == 0x5b && s[p + 1] == 0x81,
        def_index_field_at(s, p) is Ok ==> p + 2 <= s.len() && s[p] == 0x5b && s[p + 1] == 0x86,
        def_method_at(s, p) is Ok ==> p + 1 <= s.len() && s[p] == 0x14,
        def_mutex_at(s, p) is Ok ==> p + 2 <= s.len() && s[p] == 0x5b && s[p + 1] == 0x01,
        def_op_region_at(s, p) is Ok ==> p + 2 <= s.len() && s[p] == 0x5b && s[p + 1] == 0x80,
        def_power_res_at(s, p) is Ok ==> p + 2 <= s.len() && s[p] == 0x5b && s[p + 1] == 0x84,
        def_thermal_zone_at(s, p) is Ok ==> p + 2 <= s.len() && s[p] == 0x5b && s[p + 1] == 0x85,
        extended_access_field_at(s, p) is Ok ==> p + 1 <= s.len() && s[p] == 0x13,
{
    reveal(def_bank_field_at);
    reveal(access_field_at);
    reveal(def_create_bit_field_at);
    reveal(def_create_byte_field_at);
    reveal(def_create_dword_field_at);
    reveal(def_create_qword_field_at);
    reveal(def_create_word_field_at);
    reveal(def_create_field_at);
    reveal(def_data_region_at);
    reveal(def_device_at);
    reveal(def_event_at);
    reveal(def_external_at);
    reveal(def_field_at);
    reveal(def_index_field_at);
    reveal_with_fuel(def_method_at, 1);
    reveal(def_mutex_at);
    reveal(def_op_region_at);
    reveal_with_fuel(def_power_res_at, 1);
    reveal_with_fuel(def_thermal_zone_at, 1);
    reveal(extended_access_field_at);
}

/// The opcodes of the statements: a construct that parses at `p` begins there with its
/// opcode, one byte, or the extended-opcode prefix 0x5b and a second byte.
pub proof fn lemma_statement_opcodes(s: Seq<u8>, p: int)
    ensures
        def_break_at(s, p) is Ok ==> p + 1 <= s.len() && s[p] == 0xa5,
        def_break_point_at(s, p) is Ok ==> p + 1 <= s.len() && s[p] == 0xcc,
        def_continue_at(s, p) is Ok ==> p + 1 <= s.len() && s[p] == 0x9f,
        def_noop_at(s, p) is Ok ==> p + 1 <= s.len() && s[p] == 0xa3,
        def_fatal_at(s, p) is Ok ==> p + 2 <= s.len() && s[p] == 0x5b && s[p + 1] == 0x32,
        def_if_else_at(s, p) is Ok ==> p + 1 <= s.len() && s[p] == 0xa0,
        def_notify_at(s, p) is Ok ==> p + 1 <= s.len() && s[p] == 0x86,
        def_release_at(s, p) is Ok ==> p + 2 <= s.len() && s[p] == 0x5b && s[p + 1] == 0x27,
        def_reset_at(s, p) is Ok ==> p + 2 <= s.len() && s[p] == 0x5b && s[p + 1] == 0x26,
        def_return_at(s, p) is Ok ==> p + 1 <= s.len() && s[p] == 0xa4,
        def_signal_at(s, p) is Ok ==> p + 2 <= s.len() && s[p] == 0x5b && s[p + 1] == 0x24,
        def_sleep_at(s, p) is Ok ==> p + 2 <= s.len() && s[p] == 0x5b && s[p + 1] == 0x22,
        def_stall_at(s, p) is Ok ==> p + 2 <= s.len() && s[p] == 0x5b && s[p + 1] == 0x21,
        def_while_at(s, p) is Ok ==> p + 2 <= s.len() && s[p] == 0x5b && s[p + 1] == 0x21,
{
    reveal(def_break_at);
    reveal(def_break_point_at);
    reveal(def_continue_at);
    reveal(def_noop_at);
    reveal(def_fatal_at);
    reveal_with_fuel(def_if_else_at, 1);
    reveal(def_notify_at);
    reveal(def_release_at);
    reveal(def_reset_at);
    reveal(def_return_at);
    reveal(def_signal_at);
    reveal(def_sleep_at);
    reveal(def_stall_at);
    reveal_with_fuel(def_while_at, 1);
}

/// The opcodes of the expressions: a construct that parses at `p` begins there with its
/// opcode, one byte, or the extended-opcode prefix 0x5b and a second byte.
pub proof fn lemma_expr_opcodes(s: Seq<u8>, p: int)
    ensures
        def_acquire_at(s, p) is Ok ==> p + 2 <= s.len() && s[p] == 0x5b && s[p + 1] == 0x23,
        def_add_at(s, p) is Ok ==> p + 1 <= s.len() && s[p] == 0x72,
        def_and_at(s, p) is Ok ==> p + 1 <= s.len() && s[p] == 0x7b,
        def_concat_at(s, p) is Ok ==> p + 1 <= s.len() && s[p] == 0x73,
        def_concat_res_at(s, p) is Ok ==> p + 1 <= s.len() && s[p] == 0x84,
        def_multiply_at(s, p) is Ok ==> p + 1 <= s.len() && s[p] == 0x77,
        def_nand_at(s, p) is Ok ==> p + 1 <= s.len() && s[p] == 0x7c,
        def_nor_at(s, p) is Ok ==> p + 1 <= s.len() && s[p] == 0x7e,
        def_subtract_at(s, p) is Ok ==> p + 1 <= s.len() && s[p] == 0x74,
        def_xor_at(s, p) is Ok ==> p + 1 <= s.len() && s[p] == 0x7f,
        def_find_set_left_bit_at(s, p) is Ok ==> p + 1 <= s.len() && s[p] == 0x81,
        def_find_set_right_bit_at(s, p) is Ok ==> p + 1 <= s.len() && s[p] == 0x82,
        def_not_at(s, p) is Ok ==> p + 1 <= s.len() && s[p] == 0x80,
        def_or_at(s, p) is Ok ==> p + 1 <= s.len() && s[p] == 0x7d,
        def_to_bcd_at(s, p) is Ok ==> p + 2 <= s.len() && s[p] == 0x5b && s[p + 1] == 0x29,
        def_to_buffer_at(s, p) is Ok ==> p + 1 <= s.len() && s[p] == 0x96,
        def_to_decimal_string_at(s, p) is Ok ==> p + 1 <= s.len() && s[p] == 0x97,
        def_to_hex_string_at(s, p) is Ok ==> p + 1 <= s.len() && s[p] == 0x98,
        def_to_integer_at(s, p) is Ok ==> p + 1 <= s.len() && s[p] == 0x99,
        def_l_and_at(s, p) is Ok ==> p + 1 <= s.len() && s[p] == 0x90,
        def_l_equal_at(s, p) is Ok ==> p + 1 <= s.len() && s[p] == 0x93,
        def_l_greater_at(s, p) is Ok ==> p + 1 <= s.len() && s[p] == 0x94,
        def_l_greater_equal_at(s, p) is Ok ==> p + 2 <= s.len() && s[p] == 0x92 && s[p + 1] == 0x95,
        def_l_less_at(s, p) is Ok ==> p + 1 <= s.len() && s[p] == 0x95,
        def_l_less_equal_at(s, p) is Ok ==> p + 2 <= s.len() && s[p] == 0x92 && s[p + 1] == 0x94,
        def_l_not_equal_at(s, p) is Ok ==> p + 2 <= s.len() && s[p] == 0x92 && s[p + 1] == 0x93,
        def_l_or_at(s, p) is Ok ==> p + 1 <= s.len() && s[p] == 0x91,
        def_buffer_at(s, p) is Ok ==> p + 1 <= s.len() && s[p] == 0x11,
        def_cond_ref_of_at(s, p) is Ok ==> p + 2 <= s.len() && s[p] == 0x5b && s[p + 1] == 0x84,
        def_copy_obj_at(s, p) is Ok ==> p + 1 <= s.len() && s[p] == 0x9d,
        def_decrement_at(s, p) is Ok ==> p + 1 <= s.len() && s[p] == 0x76,
        def_deref_of_at(s, p) is Ok ==> p + 1 <= s.len() && s[p] == 0x83,
        def_divide_at(s, p) is Ok ==> p + 1 <= s.len() && s[p] == 0x78,
        def_from_bcd_at(s, p) is Ok ==> p + 2 <= s.len() && s[p] == 0x5b && s[p + 1] == 0x28,
        def_increment_at(s, p) is Ok ==> p + 1 <= s.len() && s[p] == 0x75,
        def_index_at(s, p) is Ok ==> p + 1 <= s.len() && s[p] == 0x88,
        def_l_not_at(s, p) is Ok ==> p + 1 <= s.len() && s[p] == 0x92,
        def_load_at(s, p) is Ok ==> p + 2 <= s.len() && s[p] == 0x5b && s[p + 1] == 0x20,
        def_load_table_at(s, p) is Ok ==> p + 2 <= s.len() && s[p] == 0x5b && s[p + 1] == 0x1f,
        def_match_at(s, p) is Ok ==> p + 1 <= s.len() && s[p] == 0x89,
        def_mid_at(s, p) is Ok ==> p + 1 <= s.len() && s[p] == 0x9e,
        def_mod_at(s, p) is Ok ==> p + 1 <= s.len() && s[p] == 0x85,
        def_obj_type_at(s, p) is Ok ==> p + 1 <= s.len() && s[p] == 0x8e,
        def_pkg_at(s, p) is Ok ==> p + 1 <= s.len() && s[p] == 0x12,
        def_var_pkg_at(s, p) is Ok ==> p + 1 <= s.len() && s[p] == 0x13,
        def_ref_of_at(s, p) is Ok ==> p + 1 <= s.len() && s[p] == 0x71,
        def_shift_left_at(s, p) is Ok ==> p + 1 <= s.len() && s[p] == 0x79,
        def_shift_right_at(s, p) is Ok ==> p + 1 <= s.len() && s[p] == 0x7a,
        def_size_of_at(s, p) is Ok ==> p + 1 <= s.len() && s[p] == 0x87,
        def_store_at(s, p) is Ok ==> p + 1 <= s.len() && s[p] == 0x70,
        def_timer_at(s, p) is Ok ==> p + 2 <= s.len() && s[p] == 0x5b && s[p + 1] == 0x33,
        def_to_string_at(s, p) is Ok ==> p + 1 <= s.len() && s[p] == 0x9c,
        def_wait_at(s, p) is Ok ==> p + 2 <= s.len() && s[p] == 0x5b && s[p + 1] == 0x25,
{
    reveal(def_acquire_at);
    reveal_with_fuel(def_add_at, 1);
    reveal_with_fuel(def_and_at, 1);
    reveal_with_fuel(def_concat_at, 1);
    reveal_with_fuel(def_concat_res_at, 1);
    reveal_with_fuel(def_multiply_at, 1);
    reveal_with_fuel(def_nand_at, 1);
    reveal_with_fuel(def_nor_at, 1);
    reveal_with_fuel(def_subtract_at, 1);
    reveal_with_fuel(def_xor_at, 1);
    reveal_with_fuel(def_find_set_left_bit_at, 1);
    reveal_with_fuel(def_find_set_right_bit_at, 1);
    reveal_with_fuel(def_not_at, 1);
    reveal_with_fuel(def_or_at, 1);
    reveal_with_fuel(def_to_bcd_at, 1);
    reveal_with_fuel(def_to_buffer_at, 1);
    reveal_with_fuel(def_to_decimal_string_at, 1);
    reveal_with_fuel(def_to_hex_string_at, 1);
    reveal_with_fuel(def_to_integer_at, 1);
    reveal_with_fuel(def_l_and_at, 1);
    reveal_with_fuel(def_l_equal_at, 1);
    reveal_with_fuel(def_l_greater_at, 1);
    reveal_with_fuel(def_l_greater_equal_at, 1);
    reveal_with_fuel(def_l_less_at, 1);
    reveal_with_fuel(def_l_less_equal_at, 1);
    reveal_with_fuel(def_l_not_equal_at, 1);
    reveal_with_fuel(def_l_or_at, 1);
    reveal_with_fuel(def_buffer_at, 1);
    reveal(def_cond_ref_of_at);
    reveal_with_fuel(def_copy_obj_at, 1);
    reveal(def_decrement_at);
    reveal_with_fuel(def_deref_of_at, 1);
    reveal_with_fuel(def_divide_at, 1);
    reveal_with_fuel(def_from_bcd_at, 1);
    reveal(def_increment_at);
    reveal_with_fuel(def_index_at, 1);
    reveal_with_fuel(def_l_not_at, 1);
    reveal(def_load_at);
    reveal_with_fuel(def_load_table_at, 1);
    reveal_with_fuel(def_match_at, 1);
    reveal_with_fuel(def_mid_at, 1);
    reveal_with_fuel(def_mod_at, 1);
    reveal_with_fuel(def_obj_type_at, 1);
    reveal_with_fuel(def_pkg_at, 1);
    reveal_with_fuel(def_var_pkg_at, 1);
    reveal(def_ref_of_at);
    reveal_with_fuel(def_shift_left_at, 1);
    reveal_with_fuel(def_shift_right_at, 1);
    reveal(def_size_of_at);
    reveal_with_fuel(def_store_at, 1);
    reveal(def_timer_at);
    reveal_with_fuel(def_to_string_at, 1);
    reveal_with_fuel(def_wait_at, 1);
}

} // verus!
