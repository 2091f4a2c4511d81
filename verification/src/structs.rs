//! Plain data records exchanged by the board: trailer rows, schedule rows,
//! staffing rows, contacts and requests.
#![allow(non_snake_case)]
use vstd::prelude::*;

verus! {

/// One in-transit line: a part on a shipment (SID) aboard a trailer.
#[derive(Clone, Debug, PartialEq, Default)]
pub struct InTransit {
    pub trailer: String,
    pub sid: String,
    pub part: String,
    pub quantity: String,
    pub duns: String,
    pub cisco: String,
    pub destination: String,
    pub supplier: String,
    pub location: String,
}

/// Delivery schedule of an inbound trailer.
#[derive(Clone, Debug, PartialEq, Default)]
pub struct Schedule {
    pub TrailerID: String,
    pub OriginalDate: String,
    pub ScheduleDate: String,
    pub ScheduleTime: String,
    pub Comments: String,
    pub Destination: String,
    pub Status: String,
    pub Supplier: String,
    pub Scac: String,
    pub Location: String,
}

/// A load from the load-management system.
#[derive(Clone, Debug, PartialEq, Default)]
pub struct LMSRecord {
    pub load_no: String,
    pub location: String,
    pub dock: String,
    pub route_id: String,
    pub route_ver: String,
    pub scac: String,
    pub status: String,
    pub trailer: String,
    pub trailer2: String,
    pub schedule_start_time: String,
    pub schedule_arrival_time: String,
    pub actual_start_time: String,
    pub actual_end_time: String,
    pub dock_sequence: String,
}

/// An inbound trailer with its schedule, shipments and parts.
#[derive(Clone, Debug, PartialEq, Default)]
pub struct IOResponse {
    pub Trailer: String,
    pub Schedule: Schedule,
    pub Sids: Vec<String>,
    pub Parts: Vec<String>,
}

/// A trailer on the live board (or a staged / archived copy of one).
#[derive(Clone, Debug, PartialEq, Default)]
pub struct TrailerRecord {
    pub hour: String,
    pub origin: String,
    pub dateShift: String,
    pub lmsAccent: String,
    pub dockCode: String,
    pub acaType: String,
    pub status: String,
    pub routeId: String,
    pub scac: String,
    pub trailer1: String,
    pub trailer2: String,
    pub firstSupplier: String,
    pub dockStopSequence: String,
    pub planStartDate: String,
    pub planStartTime: String,
    pub scheduleStartDate: String,
    pub adjustedStartTime: String,
    pub scheduleEndDate: String,
    pub scheduleEndTime: String,
    pub gateArrivalTime: String,
    pub actualStartTime: String,
    pub actualEndTime: String,
    pub statusOX: String,
    pub loadComments: String,
    pub ryderComments: String,
    pub lateComments: Option<String>,
    pub gmComments: Option<String>,
    pub lowestDoh: Option<String>,
    pub uuid: String,
    pub editRef: String,
    pub door: String,
    pub doorArrivalTime: String,
}

/// Credentials posted to the sign-in route.
#[derive(Clone, Debug)]
pub struct LoginRequest {
    pub username: String,
    pub password: String,
}

/// Answer of a successful sign-in.
#[derive(Clone, Debug)]
pub struct LoginResponse {
    pub user: UserResponse,
}

#[derive(Clone, Debug)]
pub struct UserResponse {
    pub username: String,
    pub role: String,
}

/// Date range of a delivered-trailer query.
#[derive(Clone, Debug)]
pub struct DeliveredRequest {
    pub date1: String,
    pub date2: String,
}

#[derive(Clone, Debug)]
pub struct User {
    pub name: String,
    pub password: String,
    pub role: String,
    pub email: String,
}

/// A delivered trailer as stored in the delivery log.
#[derive(Clone, Debug)]
pub struct Delivered {
    pub trailer_id: String,
    pub delivery_date: String,
    pub Comments: String,
    pub Destination: String,
    pub OriginalDate: String,
    pub ScheduleDate: String,
    pub ScheduleTime: String,
    pub Status: String,
    pub Supplier: String,
    pub Scac: String,
    pub parts: Vec<String>,
    pub sids: Vec<String>,
}

/// A rescheduled or repowered load from the exception log.
#[derive(Clone, Debug, PartialEq, Default)]
pub struct ExceptionLogEntry {
    pub loadNum: String,
    pub dock: String,
    pub kind: String,
    pub status: String,
    pub route: String,
    pub scac: String,
    pub trailer1: String,
    pub trailer2: String,
    pub supplier: String,
    pub dockSequence: String,
    pub originalDate: String,
    pub originalTime: String,
    pub newDate: String,
    pub newTime: String,
    pub newEndDate: String,
    pub newEndTime: String,
    pub comment: String,
    pub requestor: String,
    pub isRepower: bool,
    pub repowerLoadNum: String,
}

/// A drop-yard delivery commitment.
#[derive(Clone, Debug, PartialEq, Default)]
pub struct DyCommLogEntry {
    pub loadNum: String,
    pub trailer: String,
    pub scac: String,
    pub route: String,
    pub dock: String,
    pub location: String,
    pub deliveryDate: String,
    pub deliveryTime: String,
    pub supplier: String,
    pub part: String,
    pub pdt: String,
    pub createdBy: String,
}

/// A scheduled trailer arrival used by the grouped board.
#[derive(Clone, Debug, PartialEq, Default)]
pub struct TrailerEntry {
    pub loadNo: String,
    pub routePrefix: String,
    pub routeId: String,
    pub status: String,
    pub stat2: String,
    pub scac: String,
    pub trailer: String,
    pub rNote: String,
    pub schedArrival: String,
    pub schedDepart: String,
    pub location: String,
    pub acctorId: String,
}

/// Result of marking an inbound trailer delivered.
#[derive(Clone, Debug, PartialEq, Default)]
pub struct DeliveredTrailer {
    pub TrailerID: String,
    pub DeliveryDate: String,
    pub Schedule: Schedule,
    pub Parts: Vec<String>,
    pub Sids: Vec<String>,
}

#[derive(Clone, Debug)]
pub struct DeliveryRequest {
    pub trailer_id: String,
}

#[derive(Clone, Debug)]
pub struct RollNextShiftRequest {
    pub operational_date: String,
}

/// A websocket message: its type and optional payload.
#[derive(Clone, Debug)]
pub struct IncomingMessage {
    pub kind: String,
    pub data: Option<MessageData>,
}

#[derive(Clone, Debug)]
pub struct MessageData {
    pub message: String,
}

/// A person assigned to a shift, with the task given.
#[derive(Clone, Debug)]
pub struct ShiftAssignment {
    pub user_name: String,
    pub role: String,
    pub position: String,
    pub task: String,
    pub task_type: String,
    pub full_name: String,
}

/// One shift of a day with its status and assignments.
#[derive(Clone, Debug)]
pub struct ShiftSlot {
    pub shift: String,
    pub shift_status: String,
    pub shift_reason: String,
    pub assigned: Vec<ShiftAssignment>,
}

#[derive(Clone, Debug)]
pub struct UpdatePositionRequest {
    pub user_name: String,
    pub position: String,
}

/// One day of a week schedule.
#[derive(Clone, Debug)]
pub struct DaySchedule {
    pub date: String,
    pub name: String,
    pub shifts: Vec<ShiftSlot>,
    pub offset: u64,
}

/// Saturday and Monday attendance of a person over five weeks.
#[derive(Clone, Debug)]
pub struct SaturdayCount {
    pub user_name: String,
    pub full_name: String,
    pub position: String,
    pub shift: String,
    pub saturdays_worked: u64,
    pub saturdays_off: u64,
    pub mondays_worked: u64,
    pub mondays_off: u64,
}

#[derive(Clone, Debug)]
pub struct ShiftStatusRequest {
    pub start_date: String,
    pub offset: u64,
    pub shift: String,
    pub status: String,
    pub reason: String,
}

/// A week of day schedules.
#[derive(Clone, Debug)]
pub struct WeekSchedule {
    pub start_date: String,
    pub days: Vec<DaySchedule>,
}

#[derive(Clone, Debug)]
pub struct AssignShiftRequest {
    pub start_date: String,
    pub date: String,
    pub shift: String,
    pub user_name: String,
    pub offset: u64,
    pub task: String,
    pub task_type: String,
}

#[derive(Clone, Debug)]
pub struct UnassignShiftRequest {
    pub start_date: String,
    pub offset: u64,
    pub shift: String,
    pub user_name: String,
}

/// Who covers a deck during a shift.
#[derive(Clone, Debug)]
pub struct DeckCoverage {
    pub deck: String,
    pub user_name: Option<String>,
    pub slack_id: Option<String>,
}

#[derive(Clone, Debug)]
pub struct ShiftDetail {
    pub shift: String,
    pub day_key: String,
    pub shift_status: String,
    pub assigned: Vec<ShiftAssignment>,
    pub deck_coverage: Vec<DeckCoverage>,
}

#[derive(Clone, Debug)]
pub struct AssignDeckRequest {
    pub day_key: String,
    pub shift: String,
    pub deck: String,
    pub user_name: String,
}

#[derive(Clone, Debug)]
pub struct UnassignDeckRequest {
    pub day_key: String,
    pub shift: String,
    pub deck: String,
}

/// A supplier or carrier contact.
#[derive(Clone, Debug, Default)]
pub struct Contact {
    pub email: String,
    pub name: String,
    pub phone: String,
    pub duns: String,
    pub scac: String,
}

#[derive(Clone, Debug, Default)]
pub struct DunsContacts {
    pub duns: String,
    pub contacts: Vec<Contact>,
}

#[derive(Clone, Debug, Default)]
pub struct CarrierContacts {
    pub scac: String,
    pub contacts: Vec<Contact>,
}

#[derive(Clone, Debug)]
pub struct DeleteUserRequest {
    pub name: String,
}

#[derive(Clone, Debug)]
pub struct DeleteContactRequest {
    pub email: String,
}

#[derive(Clone, Debug)]
pub struct CloseHotPartRequest {
    pub part: String,
}

/// Arrivals counted for one hour at a dock.
#[derive(Clone, Debug)]
pub struct HourCount {
    pub hour: String,
    pub count: u32,
}

#[derive(Clone, Debug)]
pub struct DockCountResponse {
    pub hourly: Vec<HourCount>,
    pub shift_total: u32,
}

#[derive(Clone, Debug)]
pub struct UpdateUserRequest {
    pub name: String,
    pub full_name: String,
    pub position: String,
    pub role: String,
    pub shift: String,
    pub slack_id: String,
}

/// One field change of a trailer, as kept in the audit trail.
#[derive(Clone, Debug)]
pub struct AuditEvent {
    pub trailer_uuid: String,
    pub field: String,
    pub old_value: String,
    pub new_value: String,
    pub timestamp: String,
    pub updated_by: String,
    pub event_type: String,
}

/// Routes serving the parts of a deck.
#[derive(Clone, Debug)]
pub struct DeckRoute {
    pub route: String,
    pub parts: Vec<String>,
}

/// An email posted to the mail route.
#[derive(Clone, Debug)]
pub struct EmailRequest {
    pub to: String,
    pub subject: String,
    pub body: String,
}

/// A late load to be reported to its carrier.
#[derive(Clone, Debug)]
pub struct LateNotifyRequest {
    pub scac: String,
    pub load_no: String,
    pub route_id: String,
    pub scheduled_date: String,
    pub scheduled_time: String,
    pub dock: String,
}

} // verus!
