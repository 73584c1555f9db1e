import asyncio
import json
import sys

def emit(status, **kwargs):
    payload = {"status": status}
    payload.update(kwargs)
    print(json.dumps(payload, separators=(",", ":")))

def normalized_session_ids(raw_value):
    if not isinstance(raw_value, str):
        return set()
    value = raw_value.strip()
    if not value:
        return set()
    candidates = {value}
    if ":" in value:
        candidates.add(value.split(":", 1)[1])
    return candidates

def find_source_session(app, source_session_id):
    targets = normalized_session_ids(source_session_id)
    windows = list(getattr(app, "terminal_windows", []) or [])
    for window in windows:
        tabs = list(getattr(window, "tabs", []) or [])
        for tab in tabs:
            sessions = list(getattr(tab, "sessions", []) or [])
            for session in sessions:
                session_id = getattr(session, "session_id", None)
                if targets.intersection(normalized_session_ids(session_id)):
                    return session, tab, window
    return None, None, None

def tab_index(window, target_tab):
    tabs = list(getattr(window, "tabs", []) or [])
    target_tab_id = getattr(target_tab, "tab_id", None)
    for index, candidate in enumerate(tabs):
        candidate_tab_id = getattr(candidate, "tab_id", None)
        if target_tab_id is not None and candidate_tab_id == target_tab_id:
            return index
        if target_tab_id is None and candidate is target_tab:
            return index
    return None

async def create_tab_after_source(window, source_tab, fork_command):
    index = tab_index(window, source_tab)
    if index is None:
        return await window.async_create_tab(command=fork_command)

    try:
        return await window.async_create_tab(command=fork_command, index=index + 1)
    except Exception as indexed_exc:
        try:
            return await window.async_create_tab(command=fork_command)
        except Exception as fallback_exc:
            raise Exception(
                "Failed to create iTerm2 tab after source tab "
                f"(indexed create failed: {indexed_exc}; "
                f"fallback create failed: {fallback_exc})"
            ) from fallback_exc

def session_exists(app, session_id):
    targets = normalized_session_ids(session_id)
    if not targets:
        return False
    windows = list(getattr(app, "terminal_windows", []) or [])
    for window in windows:
        tabs = list(getattr(window, "tabs", []) or [])
        for tab in tabs:
            sessions = list(getattr(tab, "sessions", []) or [])
            for session in sessions:
                candidate = getattr(session, "session_id", None)
                if targets.intersection(normalized_session_ids(candidate)):
                    return True
    return False

async def launch(iterm2_module, connection, payload):
    app = await iterm2_module.async_get_app(connection)
    if app is None:
        return {"status": "unsupported", "reason": "iTerm2 app is unavailable."}

    source_session, source_tab, source_window = find_source_session(
        app,
        payload.get("sourceItermSessionId"),
    )
    if source_session is None or source_tab is None or source_window is None:
        return {
            "status": "failed",
            "reason": "Source iTerm2 session was not found in this window set.",
        }

    fork_command = payload.get("forkCommand")
    if not isinstance(fork_command, str) or not fork_command.strip():
        return {"status": "failed", "reason": "Fork command is missing."}

    try:
        created_tab = await create_tab_after_source(source_window, source_tab, fork_command)
    except Exception as exc:
        return {"status": "failed", "reason": f"Failed to create iTerm2 tab: {exc}"}

    if created_tab is None:
        return {
            "status": "failed",
            "reason": "iTerm2 did not keep the created tab alive.",
        }

    current_session = None
    created_session_id = None
    try:
        current_session = created_tab.current_session
        created_session_id = getattr(current_session, "session_id", None)
    except Exception:
        created_session_id = None

    try:
        open_behavior = payload.get("openBehavior", "foreground")
        if open_behavior == "foreground":
            if current_session is None:
                return {
                    "status": "failed",
                    "reason": "Created tab but could not identify its current session.",
                }
            await current_session.async_activate(select_tab=True, order_window_front=False)
        elif open_behavior == "background":
            # Restore source focus as soon as the tab exists to minimize visible
            # foreground switching when iTerm2 auto-selects new tabs.
            await source_session.async_activate(select_tab=True, order_window_front=False)
        else:
            return {
                "status": "failed",
                "reason": f"Unsupported fork tab open behavior: {open_behavior}",
            }
    except TypeError:
        if open_behavior == "foreground":
            await current_session.async_activate(select_tab=True)
        else:
            await source_session.async_activate(select_tab=True)
    except Exception as exc:
        return {
            "status": "failed",
            "reason": f"Created tab but failed to apply open behavior: {exc}",
        }

    try:
        await asyncio.sleep(0.4)
        refreshed_app = await iterm2_module.async_get_app(connection)
        if refreshed_app is None:
            return {
                "status": "failed",
                "reason": "Created tab but could not refresh iTerm2 app state for diagnostics.",
            }
        if created_session_id is not None and not session_exists(refreshed_app, created_session_id):
            return {
                "status": "failed",
                "reason": (
                    "Created iTerm2 tab session "
                    + created_session_id
                    + " closed immediately after launch; command was: "
                    + fork_command
                ),
            }
    except Exception as exc:
        return {"status": "failed", "reason": f"Tab-launch diagnostics failed: {exc}"}

    return {"status": "launched", "created_session_id": created_session_id}

def main():
    if len(sys.argv) != 2:
        emit("failed", reason="Helper expected one JSON payload argument.")
        return

    try:
        payload = json.loads(sys.argv[1])
    except Exception as exc:
        emit("failed", reason=f"Failed to parse helper payload JSON: {exc}")
        return

    try:
        import iterm2  # type: ignore
    except Exception as exc:
        emit("unsupported", reason=f"python module 'iterm2' is unavailable: {exc}")
        return

    async def runner(connection):
        return await launch(iterm2, connection, payload)

    try:
        result = iterm2.run_until_complete(runner)
    except Exception as exc:
        emit("failed", reason=f"iTerm2 API call failed: {exc}")
        return

    if isinstance(result, dict) and result.get("status") in {"launched", "unsupported", "failed"}:
        print(json.dumps(result, separators=(",", ":")))
    else:
        emit("failed", reason=f"Unexpected helper result: {result!r}")

if __name__ == "__main__":
    main()
